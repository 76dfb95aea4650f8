use pulsar::attn;
use pulsar::attn::{AttnStage, GqaParts, Rotation, Rows, ScoreScale, Selection};
use pulsar::block_run::{BlockAsk, BlockEvent, BlockRun};
use pulsar::ckpt::Ckpts;
use pulsar::decode::{Ask, Decode, Event};
use pulsar::dflash;
use pulsar::dflash::{Capture, DraftError, Rollback};
use pulsar::floats;
use pulsar::floats::Sampler;
use pulsar::forward;
use pulsar::forward::ForwardError;
use pulsar::generate;
use pulsar::generate::{Chunk, Run, Speculation, Turn};
use pulsar::geom::Geom;
use pulsar::graph::{Buf, Part};
use pulsar::header::{Header, MetaEntry, MetaItem, MetaValue, TensorType};
use pulsar::hybrid;
use pulsar::hybrid::{ChunkStep, GraphFacts, HybridBuffer, HybridError, HybridFacts, HybridFfn, Mixer, Peak};
use pulsar::prefix;
use pulsar::prefix::{PrefixError, PrefixKey, SavedCkpt, Sizes};
use pulsar::requant;
use pulsar::shape::{Family, Shape};
use pulsar::shards;
use pulsar::shards::HeadRead;

fn num(key: &str, n: u64) -> MetaEntry {
    MetaEntry {
        key: key.to_string(),
        value: MetaValue { item: MetaItem { num: Some(n), bits: Some((n as f32).to_bits()), flag: None }, list: None },
    }
}

fn base(arch: &str) -> Header {
    Header {
        architecture: Some(arch.to_string()),
        meta: vec![
            num("block_count", 4),
            num("embedding_length", 512),
            num("attention.key_length", 64),
            num("attention.head_count", 8),
            num("attention.head_count_kv", 2),
            num("leading_dense_block_count", 1),
            num("expert_count", 16),
            num("expert_used_count", 4),
            num("expert_feed_forward_length", 256),
            num("feed_forward_length", 1024),
            num("rope.freq_base", 10000),
            num("attention.layer_norm_rms_epsilon", 0),
        ],
        n_tokens: Some(1000),
        tensors: Vec::new(),
        data_offset: 4096,
    }
}

fn shape_for(arch: &str) -> Shape {
    Shape::from_gguf(&base(arch)).ok().unwrap()
}

fn bits(v: &[f32]) -> Vec<u32> {
    v.iter().map(|x| x.to_bits()).collect()
}

#[test]
fn floats_compare_on_their_bits() {
    let vals = [-1.5f32, -0.0, 0.0, 1.0, f32::INFINITY, f32::NEG_INFINITY, f32::NAN, 1e-40];
    for a in vals {
        for b in vals {
            assert_eq!(floats::greater(a.to_bits(), b.to_bits()), a > b);
        }
    }
}

#[test]
fn greedy_choice_is_the_first_largest() {
    assert_eq!(floats::argmax(&bits(&[1.0, 3.0, 3.0, -1.0])), 1);
    assert_eq!(floats::argmax(&bits(&[f32::NAN, 1.0])), 0);
    assert_eq!(floats::argmax_row(&bits(&[9.0, 1.0, 2.0]), 1, 2), 1);
    assert_eq!(floats::argmax_rows(&bits(&[1.0, 2.0, 4.0, 3.0]), 2, 2), vec![1, 0]);
}

#[test]
fn candidates_fall_in_total_order() {
    assert_eq!(floats::candidates(&bits(&[1.0, f32::NAN, -2.0, 0.0, -0.0])), vec![1, 0, 3, 4, 2]);
}

#[test]
fn sampler_draws_are_reproducible() {
    let mut s = Sampler::new(0, F_ONE, 0, 42);
    assert!(s.is_greedy());
    assert_eq!(s.state, 43);
    let mut x = 43u64;
    for _ in 0..5 {
        x ^= x >> 12;
        x ^= x << 25;
        x ^= x >> 27;
        assert_eq!(s.draw(), (x.wrapping_mul(0x2545F4914F6CDD1D) >> 40) as u32);
    }
    assert!(!Sampler::new(0.9f32.to_bits(), F_ONE, 0, 0).is_greedy());
    assert_ne!(Sampler::new(0, 0, 0, 0).state, 0);
}

const F_ONE: u32 = 0x3f80_0000;

#[test]
fn half_floats_convert() {
    assert_eq!(requant::f16_to_f32(0x3c00), 1.0f32.to_bits());
    assert_eq!(requant::f16_to_f32(0x0001), 5.9604645e-8f32.to_bits());
    assert_eq!(requant::f16_to_f32(0xfc00), f32::NEG_INFINITY.to_bits());
    assert_eq!(requant::f32_to_f16(1.0f32.to_bits()), 0x3c00);
    assert_eq!(requant::f32_to_f16(65504.0f32.to_bits()), 0x7bff);
    for h in [0x0400u16, 0x1234, 0x3c00, 0x7bff, 0xb001] {
        assert_eq!(requant::f32_to_f16(requant::f16_to_f32(h)), h);
    }
}

#[test]
fn blocks_are_decoded() {
    let n = requant::block_bytes(TensorType::Q6K);
    assert_eq!(n, 210);
    assert_eq!(requant::block_bytes(TensorType::Q4K), 144);
    let mut v = vec![0u8; n];
    // scale of one in the last two bytes, group scales of two
    v[208] = 0x00;
    v[209] = 0x3c;
    for s in 0..16 {
        v[192 + s] = 2;
    }
    v[0] = 0x05;
    let c = requant::dequant_block(TensorType::Q6K, &v, 0);
    assert_eq!(c.len(), 256);
    assert_eq!((c[0].scale, c[0].q, c[0].min), (2, 5 - 32, 0));
    assert_eq!(c[1].q, -32);
    assert_eq!(requant::block_scales(TensorType::Q6K, &v, 0), (F_ONE, 0));
}

#[test]
fn prompt_chunks() {
    assert_eq!(generate::chunk_cap(true, Family::Qwen35, 256), 16);
    assert_eq!(generate::chunk_cap(false, Family::Qwen35, 256), 256);
    assert_eq!(generate::chunk_end(10, 0, 4), 4);
    assert_eq!(generate::chunk_end(10, 8, 4), 10);
    assert_eq!(generate::speculation(true, true, Some(3)), Speculation::Layer);
    assert_eq!(generate::speculation(false, true, Some(99)), Speculation::Ngram(15));
    assert_eq!(generate::speculation(false, true, None), Speculation::Off);
    assert_eq!(generate::speculation(true, false, Some(3)), Speculation::Off);
}

/// A model whose next token is the last one plus one.
fn successor(h: &[u32]) -> u32 {
    h[h.len() - 1] + 1
}

fn plain(limit: usize, stop: u32) -> Vec<u32> {
    let mut r = Run::new(vec![5], 1, successor(&[5]), 100, limit);
    loop {
        match r.turn(r.next == stop, 1) {
            Turn::Done => return r.hist,
            Turn::Last => {
                return r.hist;
            }
            Turn::Emit => {
                r.emit();
                let pick = successor(&r.hist);
                r.advance(pick);
            }
        }
    }
}

fn speculating(limit: usize, stop: u32, drafts: &[u32]) -> Vec<u32> {
    let mut r = Run::new(vec![5], 1, successor(&[5]), 100, limit);
    loop {
        match r.turn(r.next == stop, 1) {
            Turn::Done => return r.hist,
            Turn::Last => return r.hist,
            Turn::Emit => {
                let t = r.emit();
                let mut chain = vec![t];
                chain.extend(drafts.iter().map(|d| t + d));
                let picks: Vec<u32> = chain.iter().map(|c| c + 1).collect();
                let stops: Vec<bool> = chain.iter().map(|c| *c == stop).collect();
                let s = r.settle(&chain, &picks, &stops);
                if s.finished {
                    return r.hist;
                }
            }
        }
    }
}

#[test]
fn speculation_changes_no_token() {
    for limit in [0, 1, 2, 5, 9] {
        for stop in [0, 8, 12] {
            let want = plain(limit, stop);
            assert_eq!(speculating(limit, stop, &[1, 2, 3]), want);
            assert_eq!(speculating(limit, stop, &[1, 9]), want);
            assert_eq!(speculating(limit, stop, &[]), want);
        }
    }
}

/// Runs the machine; what it has shown, where it ended, and what was asked.
fn drive(how: Speculation, ctx: u32, limit: usize, stop: u32, drafts: &[u32], polls: usize) -> (Vec<u32>, u32, Vec<Ask>) {
    let mut d = Decode::new(vec![5], 1, ctx, limit, how);
    let mut asked = vec![d.ask()];
    let mut polled = 0;
    loop {
        let ends = |t: u32| t == stop;
        let e = match asked[asked.len() - 1] {
            Ask::Poll => {
                polled += 1;
                Event::Polled(polled > polls)
            }
            Ask::Choose | Ask::RunAndChoose => {
                let pick = successor(&d.run.hist);
                Event::Chosen { pick, last: ends(pick) }
            }
            Ask::RunLast | Ask::Run => Event::Ran,
            Ask::Draft => {
                let room = (ctx - d.run.pos - 2) as usize;
                Event::Drafted(drafts.iter().take(room).map(|x| d.run.next + x).collect())
            }
            Ask::Verify => {
                let picks: Vec<u32> = d.chain.iter().map(|t| t + 1).collect();
                let stops = d.chain.iter().map(|t| ends(*t)).collect();
                let next = picks.iter().map(|t| ends(*t)).collect();
                Event::Verified { picks, stops, ends: next }
            }
            Ask::End(pos) => return (d.run.hist, pos, asked),
        };
        asked.push(d.step(e));
    }
}

#[test]
fn decoding_shows_the_same_however_it_speculates() {
    for limit in [0, 1, 2, 5, 9] {
        for stop in [0, 6, 8, 12] {
            let want = plain(limit, stop);
            assert_eq!(drive(Speculation::Off, 100, limit, stop, &[], 99).0, want);
            assert_eq!(drive(Speculation::Ngram(4), 100, limit, stop, &[], 99).0, want);
            assert_eq!(drive(Speculation::Layer, 100, limit, stop, &[1, 2, 3], 99).0, want);
            assert_eq!(drive(Speculation::Layer, 100, limit, stop, &[1, 9], 99).0, want);
            assert_eq!(drive(Speculation::Layer, 100, limit, stop, &[4], 99).0, want);
        }
    }
}

#[test]
fn decoding_asks_in_order() {
    let (shown, pos, asked) = drive(Speculation::Off, 100, 1, 0, &[], 99);
    assert_eq!((shown, pos), (vec![5, 6], 2));
    assert_eq!(asked, vec![Ask::Poll, Ask::Choose, Ask::Run, Ask::End(2)]);
    // a token that ends the run is run, and not shown
    let (shown, pos, asked) = drive(Speculation::Off, 100, 9, 6, &[], 99);
    assert_eq!((shown, pos), (vec![5], 2));
    assert_eq!(asked, vec![Ask::Poll, Ask::Choose, Ask::RunLast, Ask::End(2)]);
    // so is one at the end of the context
    assert_eq!(drive(Speculation::Off, 2, 9, 0, &[], 99).0, vec![5]);
    assert_eq!(drive(Speculation::Layer, 3, 9, 0, &[1], 99).0, vec![5]);
    assert_eq!(drive(Speculation::Layer, 4, 9, 0, &[1], 99).0, vec![5, 6, 7]);
    // nothing is asked where nothing may be shown, but for a first choice
    assert_eq!(drive(Speculation::Off, 100, 0, 0, &[], 99).2, vec![Ask::End(1)]);
    assert_eq!(drive(Speculation::Layer, 100, 0, 0, &[], 99).2, vec![Ask::Choose, Ask::End(1)]);
    // cancelling comes before choosing
    let (shown, pos, asked) = drive(Speculation::Off, 100, 9, 0, &[], 1);
    assert_eq!((shown, pos), (vec![5, 6], 2));
    assert_eq!(asked, vec![Ask::Poll, Ask::Choose, Ask::Run, Ask::Poll, Ask::End(2)]);
    let (shown, pos, asked) = drive(Speculation::Layer, 100, 3, 0, &[1, 2], 99);
    assert_eq!((shown, pos), (vec![5, 6, 7, 8], 4));
    assert_eq!(asked, vec![Ask::Choose, Ask::Poll, Ask::Draft, Ask::Verify, Ask::End(4)]);
}

#[test]
fn repetition_is_verified_as_a_chain() {
    let prompt = vec![1, 2, 3, 9, 9, 1, 2];
    let mut d = Decode::new(prompt, 7, 100, 5, Speculation::Ngram(2));
    assert_eq!(d.step(Event::Chosen { pick: 3, last: false }), Ask::Poll);
    assert_eq!(d.step(Event::Polled(false)), Ask::Verify);
    assert_eq!(d.chain, vec![3, 9, 9]);
    let e = Event::Verified { picks: vec![9, 4, 4], stops: vec![false; 3], ends: vec![false; 3] };
    assert_eq!(d.step(e), Ask::Poll);
    assert_eq!((d.accepted, d.run.pos, d.run.next), (1, 9, 4));
    assert_eq!(d.run.hist[7..], [3, 9]);
    assert_eq!(d.step(Event::Polled(false)), Ask::RunAndChoose);
    assert_eq!(d.run.hist[7..], [3, 9, 4]);
}

#[test]
fn blocks_change_no_token() {
    let mut r = Run::new(vec![5], 1, 6, 100, 4);
    let s = r.settle_block(&vec![6, 7, 9], &vec![7, 8, 10], &vec![false; 3]);
    assert_eq!((s.accepted, s.emitted, s.finished), (1, 2, false));
    assert_eq!(r.hist, vec![5, 6, 7]);
    assert_eq!((r.pos, r.next, r.emitted()), (3, 8, 2));
    let s = r.settle_block(&vec![8, 9, 10], &vec![9, 10, 11], &vec![false; 3]);
    assert!(s.finished);
    assert_eq!(r.hist, vec![5, 6, 7, 8, 9]);
    r.forwarded();
    assert_eq!(r.pos, 7);
}

fn drive_blocks(ctx: u32, limit: usize, stop: u32, drafts: &[u32], size: usize) -> (Vec<u32>, u32, Vec<BlockAsk>) {
    let mut r = BlockRun::new(vec![5], 1, 6, ctx, limit, size);
    let mut asked = vec![r.ask()];
    loop {
        let e = match asked[asked.len() - 1] {
            BlockAsk::Draft => {
                let mut b = vec![r.run.next];
                b.extend(drafts.iter().map(|d| r.run.next + d));
                BlockEvent::Drafted(b)
            }
            BlockAsk::Verify => {
                let picks = r.block.iter().map(|t| t + 1).collect();
                let stops = r.block.iter().map(|t| *t == stop).collect();
                BlockEvent::Verified { picks, stops }
            }
            BlockAsk::End(pos) => return (r.run.hist, pos, asked),
        };
        asked.push(r.step(e));
    }
}

#[test]
fn block_runs_show_the_same() {
    for limit in [0, 1, 2, 5, 9] {
        for stop in [0, 6, 8, 12] {
            let want = plain(limit, stop);
            assert_eq!(drive_blocks(100, limit, stop, &[1, 2, 3], 4).0, want);
            assert_eq!(drive_blocks(100, limit, stop, &[1, 9], 4).0, want);
            assert_eq!(drive_blocks(100, limit, stop, &[], 4).0, want);
        }
    }
    let (shown, pos, asked) = drive_blocks(100, 3, 0, &[1, 5], 4);
    assert_eq!((shown, pos), (vec![5, 6, 7, 8], 5));
    assert_eq!(
        asked,
        vec![BlockAsk::Draft, BlockAsk::Verify, BlockAsk::Draft, BlockAsk::Verify, BlockAsk::End(5)]
    );
    // no round starts that the context has no room for
    assert_eq!(drive_blocks(6, 9, 0, &[1, 2, 3], 4).2, vec![BlockAsk::End(1)]);
    assert_eq!(drive_blocks(7, 9, 0, &[1, 2, 3], 4).0, vec![5, 6, 7, 8, 9]);
}

#[test]
fn runs_end_at_their_limit() {
    let mut r = Run::new(vec![5], 1, 6, 100, 2);
    assert!(!r.over());
    r.emit();
    r.advance(7);
    assert_eq!((r.over(), r.emitted(), r.pos), (false, 1, 2));
    r.choose_next(9);
    assert_eq!(r.next, 9);
    r.emit();
    r.forwarded();
    assert_eq!((r.over(), r.pos), (true, 3));
    assert_eq!(r.hist, vec![5, 6, 9]);
    assert_eq!(generate::next_chunk(10, 4, 4, false), Chunk::Run(8));
    assert_eq!(generate::next_chunk(10, 8, 4, false), Chunk::Run(10));
    assert_eq!(generate::next_chunk(10, 8, 4, true), Chunk::Cancelled);
    assert_eq!(generate::next_chunk(10, 10, 4, true), Chunk::Done);
}

#[test]
fn packed_scales_are_told_apart() {
    let n = requant::block_bytes(TensorType::Q4K);
    let codes = |bytes: [u8; 12]| {
        let mut v = vec![0u8; n];
        v[4..16].copy_from_slice(&bytes);
        let c = requant::dequant_block(TensorType::Q4K, &v, 0);
        (0..8).map(|j| (c[j * 32].scale, c[j * 32].min)).collect::<Vec<_>>()
    };
    let base = [0x41, 0x82, 0xc3, 0x04, 0x45, 0x86, 0xc7, 0x08, 0x19, 0x2a, 0x3b, 0x4c];
    let want = codes(base);
    assert!(want.iter().all(|p| p.0 <= 63 && p.1 <= 63));
    assert_eq!((want[0], want[4]), ((1, 5), (9 + 16, 1 + 16)));
    for i in 0..12 {
        for bit in 0..8 {
            let mut other = base;
            other[i] ^= 1 << bit;
            assert_ne!(codes(other), want);
        }
    }
}

#[test]
fn repeated_phrases_are_drafted() {
    assert_eq!(generate::ngram_draft(&vec![1, 2, 3, 4, 9, 8, 1, 2, 3, 4], 2), vec![9, 8]);
    assert_eq!(generate::ngram_draft(&vec![7, 2, 3, 4, 9, 8, 2, 3, 4], 3), vec![9, 8]);
    assert_eq!(generate::ngram_draft(&vec![1, 2, 3, 4], 2), Vec::<u32>::new());
    assert!(generate::drafts_fit(10, 3, 16));
    assert!(!generate::drafts_fit(10, 3, 15));
    assert!(!generate::drafts_fit(10, 0, 100));
    assert_eq!(generate::draft_depth(0, 0, 10), 1);
    assert_eq!(generate::draft_depth(5, 6, 10), 2);
    assert!(generate::drafts_on(1, 3, false));
    assert!(!generate::drafts_on(3, 3, false));
    assert!(!generate::drafts_on(1, 3, true));
    assert!(generate::must_replay(Family::Qwen35, 1, 2));
    assert!(!generate::must_replay(Family::Gqa, 1, 2));
}

#[test]
fn rollback_points() {
    let s = shape_for("qwen35");
    let mut c: Ckpts<u32> = Ckpts::new();
    let mut pos = 0u32;
    let mut made = Vec::new();
    while made.len() < 4 {
        if c.due(&s, pos) {
            c.maybe_checkpoint(&s, pos, pos * 10);
            made.push(pos);
        }
        pos += 1;
    }
    assert_eq!(c.ckpt_count(), 2);
    assert_eq!(c.list[0].pos, made[0]);
    assert_eq!(c.list[1].pos, made[3]);
    assert_eq!(c.nearest_ckpt(made[3] - 1), Some(0));
    assert_eq!(c.nearest_ckpt(made[3]), Some(1));
    assert_eq!(c.restore_nearest_ckpt(made[3]), Some(made[3]));
    assert_eq!(c.ckpt_count(), 2);
    assert_eq!(c.restore_nearest_ckpt(made[3] - 1), Some(made[0]));
    assert_eq!(c.ckpt_count(), 1);
    assert_eq!(c.restore_nearest_ckpt(0), None);
    assert_eq!(c.ckpt_count(), 0);
    c.maybe_checkpoint(&s, 5, 50);
    assert_eq!(c.ckpt_count(), 0);
    c.clear_ckpts();
    let plain = shape_for("qwen3moe");
    assert!(!c.due(&plain, u32::MAX));
}

#[test]
fn saved_prefix_file() {
    let k = PrefixKey { n_exec_layer: 1, n_embd: 2, n_vocab: 3, ctx: 4, n_swa: 5, head_dim: 6, n_idx_dim: 7 };
    let caches = vec![vec![1, 2, 3], vec![], vec![9]];
    let cks = vec![SavedCkpt { pos: 12, state: vec![5] }, SavedCkpt { pos: 300, state: vec![6, 7] }];
    let b = prefix::save_prefix(Family::Dsv4, &k, &vec![8], &vec![40, 41], &caches, &cks).ok().unwrap();
    assert_eq!(&b[..8], b"PLSRPFX2");
    assert_eq!(b.len(), 48 + 2 + 3 * 8 + 4 + 4 + 4 + 1 + 4 + 2);
    let (hist, at) = prefix::read_head(&b, &k).ok().unwrap();
    assert_eq!((hist, at), (vec![8], 48));
    assert_eq!(&b[at..at + 2], &[40, 41]);
    let (v, end) = prefix::take_caches(&b, at + 2, &vec![3, 0, 8]).ok().unwrap();
    let got: Vec<&[u8]> = v.iter().map(|r| &b[r.0..r.1]).collect();
    assert_eq!(got, [&[1u8, 2, 3][..], &[], &[9]]);
    let (n, p) = prefix::take_word(&b, end).ok().unwrap();
    assert_eq!(n, 2);
    let (first, p) = prefix::take_word(&b, p).ok().unwrap();
    assert_eq!((first, b[p]), (12, 5));
    let (second, p) = prefix::take_word(&b, p + 1).ok().unwrap();
    assert_eq!((second, &b[p..]), (300, &[6u8, 7][..]));
    let sizes = |states: Vec<usize>| Sizes { layers: 2, rooms: vec![3, 0, 8], states };
    let l = prefix::load_prefix(&b, &k, &sizes(vec![1, b.len() - p])).ok().unwrap();
    assert_eq!(l.hist, vec![8]);
    assert_eq!(&b[l.layers.0..l.layers.1], &[40, 41]);
    for (c, (lo, hi)) in caches.iter().zip(&l.caches) {
        assert_eq!(&b[*lo..*hi], &c[..]);
    }
    for (c, (pos, lo, hi)) in cks.iter().zip(&l.ckpts) {
        assert_eq!((c.pos, &c.state[..]), (*pos, &b[*lo..*hi]));
    }
    assert_eq!((l.caches.len(), l.ckpts.len()), (3, 2));
    let spare = prefix::load_prefix(&b, &k, &sizes(vec![1, 2, 7])).ok().unwrap();
    assert_eq!((spare.hist, spare.ckpts), (l.hist, l.ckpts));
    assert!(matches!(prefix::load_prefix(&b, &k, &sizes(vec![1])), Err(PrefixError::Short)));
    assert!(matches!(prefix::load_prefix(&b, &k, &sizes(vec![1, 99])), Err(PrefixError::Short)));
    let tight = Sizes { layers: 2, rooms: vec![3, 0, 0], states: vec![1, 1] };
    assert!(matches!(prefix::load_prefix(&b, &k, &tight), Err(PrefixError::TooLarge)));
    assert!(matches!(prefix::load_prefix(&vec![0; 60], &k, &tight), Err(PrefixError::Magic)));
    let small = prefix::take_caches(&b, at + 2, &vec![3, 0, 0]).err().unwrap();
    assert_eq!(small, PrefixError::TooLarge);
    assert_eq!(small.message(), Some("prefix file: cache larger than allocation"));
    assert!(matches!(prefix::take_word(&b, b.len() - 3), Err(PrefixError::Short)));
    let other = prefix::save_prefix(Family::Mla, &k, &vec![8], &vec![], &vec![], &vec![]).err().unwrap();
    assert_eq!(other.message(), Some("prefix persist: dsv4 only"));
}

#[test]
fn saved_prefix_round_trip() {
    let k = PrefixKey::of(&shape_for("deepseek4"), 2048);
    let mut b = prefix::write_head(&k, &vec![7, 8, 9]);
    assert_eq!(b.len(), 44 + 12);
    prefix::put_section(&mut b, &vec![1, 2, 3]);
    let (hist, at) = prefix::read_head(&b, &k).ok().unwrap();
    assert_eq!(hist, vec![7, 8, 9]);
    let (lo, hi) = prefix::take_section(&b, at, 3).ok().unwrap();
    assert_eq!(&b[lo..hi], &[1, 2, 3]);
    assert!(matches!(prefix::take_section(&b, at, 2), Err(PrefixError::TooLarge)));
    let other = PrefixKey { ctx: 4096, ..k };
    assert!(matches!(prefix::read_head(&b, &other), Err(PrefixError::Mismatch)));
    assert!(matches!(prefix::read_head(&vec![0; 60], &k), Err(PrefixError::Magic)));
    assert!(matches!(prefix::read_head(&b[..50].to_vec(), &k), Err(PrefixError::Short)));
    assert!(matches!(prefix::take_section(&b[..lo + 1].to_vec(), at, 3), Err(PrefixError::Short)));
    assert_eq!(prefix::comp_bytes(3, 512, 100_000), 6144);
    assert_eq!(prefix::comp_bytes(3, 512, 100), 100);
    assert_eq!(prefix::key_bytes(10, 128, 4), 0);
    assert_eq!(prefix::key_bytes(10, 128, 10_000), 2560);
}

fn geometry() -> Geom {
    Geom { n_head_q: 0, n_head_kv: 4, head_dim: 32, theta: 9, window: 0, factors: true, rot: 0 }
}

#[test]
fn heads_are_planned() {
    let s = shape_for("qwen3moe");
    let p = GqaParts { relative: false, out_gate: false, q_norm: true, factors: true };
    let plain = attn::plan_gqa(&s, None, p);
    assert_eq!((plain.n_head_q, plain.n_head_kv, plain.head_dim, plain.window), (8, 2, 64, 0));
    assert!(matches!(plain.rotation, Rotation::Plain { width: 64, factors: false }));
    assert_eq!(plain.scale, ScoreScale::PerRoot);
    let own = attn::plan_gqa(&s, Some(geometry()), p);
    assert_eq!((own.n_head_q, own.n_head_kv, own.theta), (8, 4, 9));
    assert!(own.norm_values);
    assert_eq!(own.scale, ScoreScale::Unit);
    assert!(matches!(own.rotation, Rotation::Plain { width: 32, factors: true }));
    let gated = attn::plan_gqa(&s, Some(Geom { n_head_q: 12, ..geometry() }), GqaParts { out_gate: true, ..p });
    assert_eq!((gated.n_head_q, gated.scale, gated.norm_values), (12, ScoreScale::PerRoot, false));
    let rel = attn::plan_gqa(&s, Some(geometry()), GqaParts { relative: true, ..p });
    assert!(matches!(rel.rotation, Rotation::Bias));
    assert_eq!(rel.scale, ScoreScale::PerWidth);
    let y = Shape { rope_scale_factor: 32.0f32.to_bits(), ..s };
    let scaled = attn::plan_gqa(&y, Some(Geom { rot: 16, ..geometry() }), p);
    assert!(matches!(scaled.rotation, Rotation::Scaled { width: 16, yarn: true, cancel: true }));
    let slid = attn::plan_gqa(&y, Some(Geom { rot: 16, window: 8, ..geometry() }), p);
    assert!(matches!(slid.rotation, Rotation::Scaled { width: 16, yarn: false, cancel: false }));
    assert_eq!(attn::heads_width(&s, Some(geometry()), true), 256);
    assert_eq!(attn::heads_width(&s, None, true), 512);
}

#[test]
fn selections_are_reused() {
    let mut s = Selection::new();
    assert!(matches!(s.select(100, 50, 3, 0, true, 0), Ok(Rows::All(50))));
    assert!(matches!(s.select(0, 5000, 3, 0, true, 0), Ok(Rows::All(5000))));
    let mut fresh = Selection::new();
    let mut seen = None;
    for il in 0..8 {
        match fresh.select(100, 500, il, 0, true, 1) {
            Ok(Rows::Scored(n)) => {
                assert_eq!(n, 100);
                seen = Some(il);
            }
            Ok(Rows::Reused(n)) => {
                assert!(seen.is_some());
                assert_eq!(n, 100);
            }
            Ok(Rows::All(_)) => panic!("everything"),
            Err(_) => assert!(seen.is_none()),
        }
    }
    assert!(seen.is_some());
    assert_eq!(fresh.hop(2, true), Some(100));
    assert_eq!(fresh.hop(2, true), None);
    assert!(Selection::new().select(100, 500, 0, 0, false, 0).is_err());
}

#[test]
fn staged_weights_belong_to_one_layer() {
    let mut a = AttnStage::new();
    assert!(!a.ready_for(3, true));
    a.kick(3, true);
    assert!(a.ready_for(3, true));
    assert!(!a.ready_for(3, false));
    assert!(!a.ready_for(4, true));
    a.kick(3, false);
    assert!(!a.ready_for(3, true));
    assert_eq!((attn::arena_of(4), attn::arena_of(5)), (0, 1));
}

#[test]
fn routers_are_planned() {
    let s = Shape { n_shexp_sink: 1, ..shape_for("qwen3moe") };
    let r = attn::router_plan(&s, true, false);
    assert_eq!((r.sink, r.picks, r.logits, r.mode), (1, 3, 17, 2));
    let r = attn::router_plan(&s, false, false);
    assert_eq!((r.sink, r.picks, r.logits, r.mode), (0, 4, 16, 1));
    assert_eq!(attn::router_plan(&s, true, true).logits, 16);
}

#[test]
fn long_batches_are_split_at_the_selection_bound() {
    let s = Shape { n_idx_topk: 10, ..shape_for("glm-dsa") };
    let v = forward::forward_rows(&s, 8, 6, 1);
    assert_eq!(v.len(), 2);
    assert_eq!((v[0].lo, v[0].hi, v[0].pos), (0, 4, 6));
    assert_eq!((v[1].lo, v[1].hi, v[1].pos, v[1].rows), (4, 8, 10, 1));
    assert_eq!(v[0].rows, 0);
    let v = forward::forward_rows(&s, 8, 6, 7);
    assert_eq!((v[0].rows, v[1].rows), (3, 4));
    let v = forward::forward_rows(&s, 8, 6, 9);
    assert_eq!((v[0].rows, v[1].rows), (4, 4));
    let one = forward::forward_rows(&shape_for("qwen3moe"), 8, 6, 2);
    assert_eq!((one.len(), one[0].rows), (1, 2));
    assert_eq!(forward::check_part(&one[0], 8, 14), None);
    assert_eq!(forward::check_part(&one[0], 7, 14), Some(ForwardError::Size { n: 8, max: 7 }));
    assert_eq!(forward::check_part(&one[0], 8, 13), Some(ForwardError::Context));
    assert!(ForwardError::Size { n: 8, max: 7 }.message().contains('8'));
    assert!(!ForwardError::Context.message().is_empty());
    assert_eq!(forward::rows_given(3, 2), 2);
    assert_eq!((forward::forward_batch(true), forward::forward_batch(false)), (1, 0));
    assert_eq!(forward::layer_dev(&vec![4, 5], 1), 5);
    assert_eq!(forward::layer_dev(&vec![4, 5], 9), 4);
}

#[test]
fn offsets_are_found_in_their_shard() {
    let b = shards::shard_bases(&vec![100, 50, 25]);
    assert_eq!(b, vec![0, 100, 150]);
    assert_eq!(shards::locate(&b, 0), (0, 0));
    assert_eq!(shards::locate(&b, 99), (0, 99));
    assert_eq!(shards::locate(&b, 100), (1, 0));
    assert_eq!(shards::locate(&b, 160), (2, 10));
    assert_eq!(shards::next_head_read(8, 8, true, false), HeadRead::Done);
    assert_eq!(shards::next_head_read(8, 8, false, true), HeadRead::Again(16));
    assert_eq!(shards::next_head_read(8, 5, false, true), HeadRead::Fail);
    assert_eq!(shards::next_head_read(8, 8, false, false), HeadRead::Fail);
}

#[test]
fn hybrid_batches() {
    assert_eq!(hybrid::check_batch(0, 0, 1, 10), Some(HybridError::Empty));
    assert_eq!(hybrid::check_batch(4, 0, 17, 10), Some(HybridError::Rows));
    assert_eq!(hybrid::check_batch(4, 7, 1, 10), Some(HybridError::Context));
    assert_eq!(hybrid::check_batch(4, 6, 1, 10), None);
    assert_eq!(hybrid::check_rows(18, 3), Some(HybridError::LastChunk));
    assert_eq!(hybrid::check_rows(18, 2), None);
    let v: Vec<(usize, usize)> = hybrid::chunks(35).iter().map(|c| (c.lo, c.hi)).collect();
    assert_eq!(v, vec![(0, 16), (16, 32), (32, 35)]);
}

#[test]
fn graphs_are_launched_in_runs() {
    let v: Vec<(usize, usize, bool)> = hybrid::launches(&vec![true, true, false, true], true, 0, 4)
        .iter()
        .map(|l| (l.span.lo, l.span.hi, l.graph))
        .collect();
    assert_eq!(v[0], (0, 2, true));
    assert_eq!(v[1], (2, 3, false));
    assert_eq!(v.last().map(|x| x.1), Some(4));
    let f = GraphFacts {
        drafting: false,
        resident_ffn: true,
        has_gdn: true,
        has_attn: false,
        split_attn: false,
        two_cards: false,
        ctx: 1000,
        exact_kv: true,
    };
    assert!(hybrid::graphable(f));
    assert!(!hybrid::graphable(GraphFacts { resident_ffn: false, ..f }));
    assert_eq!(hybrid::second_bank(&vec![0, 0, 1, 1], 0), Some((2, 1)));
    assert_eq!(hybrid::second_bank(&vec![0, 0], 0), None);
}

#[test]
fn delta_layers_have_sizes() {
    let s = shape_for("qwen35moe");
    let d = hybrid::gdn_dims(&s, false);
    assert_eq!((d.k_heads, d.v_heads, d.key, d.value, d.conv), (16, 32, 2048, 4096, 8192));
    let h = hybrid::gdn_dims(&s, true);
    assert_eq!((h.k_heads, h.v_heads, h.conv), (8, 16, 4096));
    assert!(hybrid::has_state(&s, 0));
    assert!(!hybrid::has_state(&s, 3));
    let size = |b| hybrid::hybrid_bytes(&s, &d, b).unwrap();
    assert_eq!(size(HybridBuffer::Conv), 16 * 8192 * 4);
    assert_eq!(size(HybridBuffer::Row), 16 * 512 * 4);
    assert_eq!(size(HybridBuffer::KvHeads), 16 * (2 * s.head_dim as usize) * 4);
    assert_eq!(size(HybridBuffer::QueryGate), 2 * size(HybridBuffer::Heads));
    assert_eq!(size(HybridBuffer::Inner), 16 * s.n_ff_exp.max(s.n_ff_dense) as usize * 4);
    assert_eq!(hybrid::block_rows_bytes(&s, &d, false, 256, 292), Some(16 * 2 * 292));
    assert_eq!(hybrid::block_rows_bytes(&s, &d, true, 256, 292), Some(16 * 16 * 292));
    let wide = Shape { n_head: u32::MAX, head_dim: u32::MAX, ..s };
    assert_eq!(hybrid::hybrid_bytes(&wide, &d, HybridBuffer::Heads), None);
    assert_eq!(hybrid::block_rows_bytes(&wide, &d, true, 1, 292), None);
    let bank = hybrid::bank_buffers();
    assert_eq!(bank.len(), 31);
    assert!(bank.contains(&(Buf::Half(false, Part::Qkv), HybridBuffer::Conv)));
    for (i, a) in bank.iter().enumerate() {
        assert!(bank[..i].iter().all(|b| b.0 != a.0));
    }
}

#[test]
fn hybrid_layers_are_planned() {
    let s = shape_for("qwen35moe");
    let f = HybridFacts {
        has_gdn: true,
        has_attn: false,
        half_mixer: false,
        resident_ffn: false,
        half_ffn: false,
        has_experts: true,
        shared_expert: true,
        t: 1,
        ctx: 100,
        exact_kv: true,
        rotate: false,
    };
    let (m, n) = hybrid::plan_hybrid(&s, f).ok().unwrap();
    assert!(matches!(m, Mixer::Gdn { halved: false, .. }));
    assert!(matches!(n, HybridFfn::Experts { shared: true }));
    let (m, n) = hybrid::plan_hybrid(&s, HybridFacts { has_gdn: false, has_attn: true, resident_ffn: true, ..f }).ok().unwrap();
    assert!(matches!(m, Mixer::Attn { n_head: 8, n_head_kv: 2, .. }));
    assert!(matches!(n, HybridFfn::Dense));
    assert_eq!(hybrid::plan_hybrid(&s, HybridFacts { has_gdn: false, ..f }).err(), Some(HybridError::NoMixer));
    assert_eq!(hybrid::plan_hybrid(&s, HybridFacts { has_experts: false, ..f }).err(), Some(HybridError::NoFfn));
}

#[test]
fn halves_of_the_vocabulary_agree() {
    let row = bits(&[1.0, 5.0, 2.0, 5.0]);
    let a = vec![Peak { bits: row[1], at: 1 }];
    let b = vec![Peak { bits: row[3], at: 1 }];
    assert_eq!(hybrid::merge_peaks(&a, &b, 2), vec![floats::argmax(&row)]);
    let c = vec![Peak { bits: 9.0f32.to_bits(), at: 0 }];
    assert_eq!(hybrid::merge_peaks(&a, &c, 2), vec![2]);
}

#[test]
fn feature_windows_wrap() {
    let w = dflash::window(100);
    assert_eq!((w.first, w.len), (0, 100));
    let w = dflash::window(300);
    assert_eq!((w.first, w.len), (44, 256));
    assert_eq!(dflash::capture_at(&vec![3, 7], 7, None), Capture::Ring(1));
    assert_eq!(dflash::capture_at(&vec![3, 7], 7, Some(5)), Capture::Staged(1));
    assert_eq!(dflash::capture_at(&vec![3, 7], 4, None), Capture::No);
    assert_eq!(dflash::noise_block(9, 1, 4), vec![9, 1, 1, 1]);
    assert!(dflash::block_fits(10, 4, 16));
    assert!(!dflash::block_fits(10, 4, 15));
    assert_eq!(dflash::rollback_to(false, 3, None, 1), None);
    assert_eq!(dflash::rollback_to(true, 3, Some(3), 0), Some(Rollback { on_second: true, replay: false }));
    let v = dflash::draft_block(&vec![10, 11, 12], false, 7);
    assert_eq!(v[0], 7);
    assert_eq!(v[1], 10 + dflash::draft_row(false, 1) as u32);
    assert_ne!(dflash::draft_row(true, 1), dflash::draft_row(false, 1));
}

#[test]
fn draft_files_are_read() {
    assert!(matches!(dflash::read_draft(&base("qwen35"), false, false), Err(DraftError::NotDraft)));
    assert_eq!(dflash::draft_message(&DraftError::NotDraft, "d.gguf"), "d.gguf: not a dflash-draft gguf");
    assert_eq!(dflash::draft_message(&DraftError::Missing("k".to_string()), "d"), "draft gguf missing k");
    assert_eq!(dflash::draft_message(&DraftError::Block, "d"), "draft block_size exceeds T_MAX");
    let h = Header { architecture: Some("dflash-draft".to_string()), meta: Vec::new(), n_tokens: None, tensors: Vec::new(), data_offset: 0 };
    assert!(matches!(dflash::read_draft(&h, false, false), Err(DraftError::Missing(_))));
}

#[test]
fn chunks_cross_to_the_second_card_and_back() {
    let devs = vec![0, 0, 1, 1, 1];
    let steps = hybrid::chunk_steps(hybrid::second_bank(&devs, 0), 0, devs.len());
    assert_eq!(
        steps,
        vec![
            ChunkStep::Span { lo: 0, hi: 2 },
            ChunkStep::Hop { from: 0, to: 1 },
            ChunkStep::Span { lo: 2, hi: 5 },
            ChunkStep::Hop { from: 1, to: 0 },
        ]
    );
    assert_eq!(hybrid::chunk_steps(None, 0, 5), vec![ChunkStep::Span { lo: 0, hi: 5 }]);
}
