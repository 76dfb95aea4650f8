//! Stage timers, telemetry figures, and the residency map of the experts.

use vstd::prelude::*;

use crate::bank::TierMap;
use crate::kv::{KvChoice, KvFormat, LatFormat};
use crate::store::StreamingStore;
use crate::tensors;
use crate::tensors::ExpertTensor;
use crate::text;

verus! {

broadcast use vstd::std_specs::hash::group_hash_axioms;

/// Stage timers of the decode loop, in nanoseconds, and its counters.
#[derive(Clone, Copy, Debug, PartialEq, Eq, Structural)]
pub struct Prof {
    /// Blocking wait for the device at the router readback.
    pub sync: u64,
    /// Expert resolve, wall time; the next seven are parts of it.
    pub resolve: u64,
    /// Readback of selections.
    pub resolve_d2h: u64,
    /// Building the lists of what is wanted and where it is.
    pub resolve_lists: u64,
    /// Host lookup and eviction.
    pub resolve_host: u64,
    /// Disk wait for cache misses.
    pub resolve_fetch: u64,
    /// Uploads to the device.
    pub h2d: u64,
    /// Draining prefetched slabs into the host store.
    pub resolve_absorb: u64,
    /// Slabs drained that way.
    pub absorbed: u64,
    /// Building and uploading expert references.
    pub resolve_ptrs: u64,
    /// Processor lane behind the overlap.
    pub cpu: u64,
    /// Output head.
    pub tail: u64,
    /// Layer steps.
    pub calls: u64,
    /// Routed experts that the prediction one layer earlier named.
    pub pred_hits: u64,
    /// Routed experts with a prediction.
    pub pred_total: u64,
}

impl Default for Prof {
    fn default() -> (p: Prof)
        ensures
            p.sync == 0 && p.resolve == 0 && p.resolve_d2h == 0 && p.resolve_lists == 0,
            p.resolve_host == 0 && p.resolve_fetch == 0 && p.h2d == 0 && p.resolve_absorb == 0,
            p.absorbed == 0 && p.resolve_ptrs == 0 && p.cpu == 0 && p.tail == 0 && p.calls == 0,
            p.pred_hits == 0 && p.pred_total == 0,
    {
        Prof {
            sync: 0,
            resolve: 0,
            resolve_d2h: 0,
            resolve_lists: 0,
            resolve_host: 0,
            resolve_fetch: 0,
            h2d: 0,
            resolve_absorb: 0,
            absorbed: 0,
            resolve_ptrs: 0,
            cpu: 0,
            tail: 0,
            calls: 0,
            pred_hits: 0,
            pred_total: 0,
        }
    }
}

/// The seconds of `ns` nanoseconds as text with two decimals.
pub uninterp spec fn seconds_text(ns: u64) -> Seq<char>;

/// `std::time::Duration::as_secs_f64` of `ns` nanoseconds, written by
/// `format!` with two decimals. The text is a function of `ns`; which digits
/// it has is not stated.
#[verifier::external_body]
fn seconds(ns: u64) -> (s: String)
    ensures
        s@ == seconds_text(ns),
{
    format!("{:.2}", std::time::Duration::from_nanos(ns).as_secs_f64())
}

/// The timers of a report, as text.
pub struct Times {
    pub sync: String,
    pub resolve: String,
    pub d2h: String,
    pub lists: String,
    pub host: String,
    pub disk: String,
    pub h2d: String,
    pub absorb: String,
    pub ptrs: String,
    pub other: String,
    pub cpu: String,
    pub tail: String,
}

/// The report of a run.
pub open spec fn report_of(t: &Times, p: &Prof, percent: Seq<char>) -> Seq<char> {
    let line = "gpu-wait "@ + t.sync@ + "s, resolve "@ + t.resolve@ + "s (d2h "@ + t.d2h@
        + "s, lists "@ + t.lists@ + "s, host "@ + t.host@ + "s, disk "@ + t.disk@ + "s, h2d "@
        + t.h2d@ + "s, absorb "@ + t.absorb@ + "s/"@ + text::digits(p.absorbed as nat)
        + " slabs, ptrs "@ + t.ptrs@ + "s, other "@ + t.other@ + "s), cpu-lane "@ + t.cpu@
        + "s, logits-tail "@ + t.tail@ + "s over "@ + text::digits(p.calls as nat)
        + " layer steps"@;
    if p.pred_total > 0 {
        line + "\npulsar: cross-layer prefetch predicted "@ + text::digits(p.pred_hits as nat)
            + "/"@ + text::digits(p.pred_total as nat) + " routed experts ("@ + percent + "%)"@
    } else {
        line
    }
}

/// The report of a run from the texts of its timers.
pub fn render_report(t: &Times, p: &Prof, percent: &str) -> (s: String)
    ensures
        s@ == report_of(t, p, percent@),
{
    let mut s = String::from_str("gpu-wait ");
    s.append(t.sync.as_str());
    s.append("s, resolve ");
    s.append(t.resolve.as_str());
    s.append("s (d2h ");
    s.append(t.d2h.as_str());
    s.append("s, lists ");
    s.append(t.lists.as_str());
    s.append("s, host ");
    s.append(t.host.as_str());
    s.append("s, disk ");
    s.append(t.disk.as_str());
    s.append("s, h2d ");
    s.append(t.h2d.as_str());
    s.append("s, absorb ");
    s.append(t.absorb.as_str());
    s.append("s/");
    text::push_decimal(&mut s, p.absorbed);
    s.append(" slabs, ptrs ");
    s.append(t.ptrs.as_str());
    s.append("s, other ");
    s.append(t.other.as_str());
    s.append("s), cpu-lane ");
    s.append(t.cpu.as_str());
    s.append("s, logits-tail ");
    s.append(t.tail.as_str());
    s.append("s over ");
    text::push_decimal(&mut s, p.calls);
    s.append(" layer steps");
    if p.pred_total > 0 {
        s.append("\npulsar: cross-layer prefetch predicted ");
        text::push_decimal(&mut s, p.pred_hits);
        s.append("/");
        text::push_decimal(&mut s, p.pred_total);
        s.append(" routed experts (");
        s.append(percent);
        s.append("%)");
    }
    s
}

impl Prof {
    /// Resolve time that no part accounts for.
    pub open spec fn unaccounted(&self) -> u64 {
        let parts = self.resolve_d2h + self.resolve_lists + self.resolve_host + self.resolve_fetch
            + self.h2d + self.resolve_absorb + self.resolve_ptrs;
        if self.resolve >= parts {
            (self.resolve - parts) as u64
        } else {
            0
        }
    }

    /// Resolve time that no part accounts for.
    pub fn other(&self) -> (ns: u64)
        ensures
            ns == self.unaccounted(),
    {
        let parts: u128 = self.resolve_d2h as u128 + self.resolve_lists as u128
            + self.resolve_host as u128 + self.resolve_fetch as u128 + self.h2d as u128
            + self.resolve_absorb as u128 + self.resolve_ptrs as u128;
        if self.resolve as u128 >= parts {
            (self.resolve as u128 - parts) as u64
        } else {
            0
        }
    }

    /// The report's timer texts are those of this profile.
    pub open spec fn has_times(&self, t: &Times) -> bool {
        &&& t.sync@ == seconds_text(self.sync)
        &&& t.resolve@ == seconds_text(self.resolve)
        &&& t.d2h@ == seconds_text(self.resolve_d2h)
        &&& t.lists@ == seconds_text(self.resolve_lists)
        &&& t.host@ == seconds_text(self.resolve_host)
        &&& t.disk@ == seconds_text(self.resolve_fetch)
        &&& t.h2d@ == seconds_text(self.h2d)
        &&& t.absorb@ == seconds_text(self.resolve_absorb)
        &&& t.ptrs@ == seconds_text(self.resolve_ptrs)
        &&& t.other@ == seconds_text(self.unaccounted())
        &&& t.cpu@ == seconds_text(self.cpu)
        &&& t.tail@ == seconds_text(self.tail)
    }

    fn times(&self) -> (t: Times)
        ensures
            self.has_times(&t),
    {
        Times {
            sync: seconds(self.sync),
            resolve: seconds(self.resolve),
            d2h: seconds(self.resolve_d2h),
            lists: seconds(self.resolve_lists),
            host: seconds(self.resolve_host),
            disk: seconds(self.resolve_fetch),
            h2d: seconds(self.h2d),
            absorb: seconds(self.resolve_absorb),
            ptrs: seconds(self.resolve_ptrs),
            other: seconds(self.other()),
            cpu: seconds(self.cpu),
            tail: seconds(self.tail),
        }
    }

    /// The report of a run. `percent` is the share of predictions that hit.
    pub fn report(&self, percent: &str) -> (s: String)
        ensures
            exists|t: Times| #[trigger]
                self.has_times(&t) && s@ == report_of(&t, self, percent@),
    {
        let t = self.times();
        render_report(&t, self, percent)
    }
}

/// One resident expert tier: its card, its bytes, the experts it served.
#[derive(Clone, Copy, Debug, PartialEq, Eq, Structural)]
pub struct TierStat {
    pub dev: i32,
    pub bytes: usize,
    pub hits: u64,
}

/// One card's memory.
#[derive(Debug)]
pub struct GpuStat {
    pub name: String,
    pub vram_free: usize,
    pub vram_total: usize,
}

/// Bytes of the first `n` tiers, of all cards or of one.
pub open spec fn tier_bytes(tiers: Seq<TierStat>, dev: Option<i32>, n: int) -> nat
    decreases n,
{
    if n <= 0 {
        0
    } else {
        tier_bytes(tiers, dev, n - 1) + if dev is None || dev == Some(tiers[n - 1].dev) {
            tiers[n - 1].bytes as nat
        } else {
            0
        }
    }
}

fn sum_tiers(tiers: &Vec<TierStat>, dev: Option<i32>) -> (s: u128)
    ensures
        s == tier_bytes(tiers@, dev, tiers@.len() as int),
        s <= tiers@.len() * u64::MAX,
{
    let mut s: u128 = 0;
    let n: usize = tiers.len();
    let mut i: usize = 0;
    while i < n
        invariant
            i <= n,
            n == tiers@.len(),
            s == tier_bytes(tiers@, dev, i as int),
            s <= i * u64::MAX,
        decreases n - i,
    {
        let here: bool = match dev {
            Some(d) => d == tiers[i].dev,
            None => true,
        };
        proof {
            assert((i + 1) * u64::MAX == i * u64::MAX + u64::MAX) by (nonlinear_arith);
            assert((i + 1) * u64::MAX <= u64::MAX * u64::MAX) by (nonlinear_arith)
                requires
                    i + 1 <= u64::MAX,
            ;
        }
        if here {
            s = s + tiers[i].bytes as u128;
        }
        i = i + 1;
    }
    s
}

/// Expert bytes in device memory: the tiers, and the used slots of the slab
/// cache.
pub fn vram_resident(tiers: &Vec<TierStat>, cached: usize, slab_bytes: usize) -> (n: u128)
    requires
        tiers@.len() <= u32::MAX,
        cached <= u32::MAX,
    ensures
        n == tier_bytes(tiers@, None, tiers@.len() as int) + cached * slab_bytes,
{
    let t: u128 = sum_tiers(tiers, None);
    proof {
        assert(cached * slab_bytes <= 0xffff_ffff * u64::MAX) by (nonlinear_arith)
            requires
                0 <= cached <= 0xffff_ffff,
                0 <= slab_bytes <= u64::MAX,
        ;
        assert(tiers@.len() * u64::MAX <= 0xffff_ffff * u64::MAX) by (nonlinear_arith)
            requires
                tiers@.len() <= 0xffff_ffff,
        ;
    }
    t + cached as u128 * slab_bytes as u128
}

/// What a larger context could spend on one card that hosts key/value rows:
/// its free memory, the tiers there, and on the primary the slab cache.
pub open spec fn card_headroom(
    d: i32,
    free: usize,
    tiers: Seq<TierStat>,
    primary: i32,
    pool: usize,
) -> nat {
    free as nat + tier_bytes(tiers, Some(d), tiers.len() as int) + if d == primary {
        pool as nat
    } else {
        0
    }
}

/// What a larger context could spend on the first `n` of these cards.
pub open spec fn headroom_upto(
    devs: Seq<i32>,
    free: Seq<usize>,
    tiers: Seq<TierStat>,
    primary: i32,
    pool: usize,
    n: int,
) -> nat
    decreases n,
{
    if n <= 0 {
        0
    } else {
        headroom_upto(devs, free, tiers, primary, pool, n - 1) + card_headroom(
            devs[n - 1],
            free[n - 1],
            tiers,
            primary,
            pool,
        )
    }
}

/// What a larger context could spend on the cards that host key/value rows.
/// `free` holds each card's free memory.
pub fn kv_headroom(
    devs: &Vec<i32>,
    free: &Vec<usize>,
    tiers: &Vec<TierStat>,
    primary: i32,
    pool: usize,
) -> (n: u128)
    requires
        free@.len() == devs@.len(),
        devs@.len() <= 0xffff,
        tiers@.len() <= 0xffff,
    ensures
        n == headroom_upto(devs@, free@, tiers@, primary, pool, devs@.len() as int),
{
    let mut n: u128 = 0;
    let mut i: usize = 0;
    while i < devs.len()
        invariant
            i <= devs@.len() <= 0xffff,
            free@.len() == devs@.len(),
            tiers@.len() <= 0xffff,
            n == headroom_upto(devs@, free@, tiers@, primary, pool, i as int),
            n <= i * 0x2_0000 * u64::MAX,
        decreases devs@.len() - i,
    {
        let t: u128 = sum_tiers(tiers, Some(devs[i]));
        let slab: usize = if devs[i] == primary {
            pool
        } else {
            0
        };
        proof {
            assert(tiers@.len() * u64::MAX <= 0xffff * u64::MAX) by (nonlinear_arith)
                requires
                    tiers@.len() <= 0xffff,
            ;
            assert((i + 1) * 0x2_0000 * u64::MAX == i * 0x2_0000 * u64::MAX + 0x2_0000 * u64::MAX)
                by (nonlinear_arith);
            assert((i + 1) * 0x2_0000 * u64::MAX <= 0xffff * 0x2_0000 * u64::MAX)
                by (nonlinear_arith)
                requires
                    i + 1 <= 0xffff,
            ;
        }
        n = n + (free[i] as u128 + t + slab as u128);
        i = i + 1;
    }
    n
}

/// The format the caches ended up in.
pub open spec fn resolved_name(c: &KvChoice) -> Seq<char> {
    if c.format == KvFormat::Fp8 || c.lat == LatFormat::Fp8 {
        "fp8"@
    } else if c.format == KvFormat::Fp16 || c.lat == LatFormat::Fp16 {
        "fp16"@
    } else {
        match c.format {
            KvFormat::Int8 => "int8"@,
            KvFormat::Q8 => if c.rot { "turbo8"@ } else { "q8_0"@ },
            KvFormat::Q4 => if c.rot { "turbo4"@ } else { "q4_0"@ },
            _ => "f32"@,
        }
    }
}

/// The format the caches ended up in.
pub fn kv_resolved(c: &KvChoice) -> (n: &'static str)
    ensures
        n@ == resolved_name(c),
{
    if c.format == KvFormat::Fp8 || c.lat == LatFormat::Fp8 {
        "fp8"
    } else if c.format == KvFormat::Fp16 || c.lat == LatFormat::Fp16 {
        "fp16"
    } else {
        match c.format {
            KvFormat::Int8 => "int8",
            KvFormat::Q8 => if c.rot {
                "turbo8"
            } else {
                "q8_0"
            },
            KvFormat::Q4 => if c.rot {
                "turbo4"
            } else {
                "q4_0"
            },
            _ => "f32",
        }
    }
}

/// The caches are stored in a compact format.
pub fn kv_compact(c: &KvChoice) -> (r: bool)
    ensures
        r == (c.format != KvFormat::F32 || c.lat != LatFormat::F32),
{
    c.format != KvFormat::F32 || c.lat != LatFormat::F32
}

/// One expert's residency and routing heat. `tier` is 3 in device memory, 2
/// in the host cache, 0 on disk only.
#[derive(Clone, Copy, Debug, PartialEq, Eq, Structural)]
pub struct ExpertCell {
    pub layer: u32,
    pub expert: u32,
    pub tier: u8,
    pub heat: u64,
}

/// Some tier holds the slab at `off`.
pub open spec fn in_tier(tiers: Seq<TierMap>, off: u64) -> bool {
    exists|i: int| 0 <= i < tiers.len() && (#[trigger] tiers[i])@.contains_key(off)
}

fn tiered(tiers: &Vec<TierMap>, off: u64) -> (r: bool)
    ensures
        r == in_tier(tiers@, off),
{
    let mut i: usize = 0;
    while i < tiers.len()
        invariant
            i <= tiers@.len(),
            forall|k: int| 0 <= k < i ==> !(#[trigger] tiers@[k])@.contains_key(off),
        decreases tiers@.len() - i,
    {
        if tiers[i].contains_key(&off) {
            return true;
        }
        i = i + 1;
    }
    false
}

/// The cell of one expert, by its gate slab.
pub open spec fn cell_of<S>(
    gate: ExpertTensor,
    l: int,
    e: int,
    n_expert: int,
    tiers: Seq<TierMap>,
    store: &StreamingStore<S>,
    counts: Seq<u64>,
) -> ExpertCell {
    let off = tensors::slab_offset(gate, e) as u64;
    let at = l * n_expert + e;
    ExpertCell {
        layer: l as u32,
        expert: e as u32,
        tier: if in_tier(tiers, off) {
            3
        } else if store.cache@.contains_key(off) {
            2
        } else {
            0
        },
        heat: if at < counts.len() { counts[at] } else { 0 },
    }
}

/// The cells of the first `n` layers; `None` marks a layer without routed
/// experts.
pub open spec fn cells_upto<S>(
    gates: Seq<Option<ExpertTensor>>,
    n_expert: int,
    tiers: Seq<TierMap>,
    store: &StreamingStore<S>,
    counts: Seq<u64>,
    n: int,
) -> Seq<ExpertCell>
    decreases n,
{
    if n <= 0 {
        Seq::empty()
    } else {
        let before = cells_upto(gates, n_expert, tiers, store, counts, n - 1);
        match gates[n - 1] {
            Some(g) => before + Seq::new(
                n_expert as nat,
                |e: int| cell_of(g, n - 1, e, n_expert, tiers, store, counts),
            ),
            None => before,
        }
    }
}

/// Residency and heat of every routed expert, layer by layer.
pub fn expert_map<S>(
    gates: &Vec<Option<ExpertTensor>>,
    n_expert: u32,
    tiers: &Vec<TierMap>,
    store: &StreamingStore<S>,
    counts: &Vec<u64>,
) -> (cells: Vec<ExpertCell>)
    requires
        gates@.len() <= u32::MAX,
        forall|l: int|
            0 <= l < gates@.len() ==> ((#[trigger] gates@[l]) matches Some(g)
                ==> tensors::addressable(g, n_expert as nat)),
    ensures
        cells@ == cells_upto(
            gates@,
            n_expert as int,
            tiers@,
            store,
            counts@,
            gates@.len() as int,
        ),
{
    let mut cells: Vec<ExpertCell> = Vec::new();
    let ghost ne = n_expert as int;
    let mut l: usize = 0;
    while l < gates.len()
        invariant
            l <= gates@.len() <= u32::MAX,
            ne == n_expert,
            forall|k: int|
                0 <= k < gates@.len() ==> ((#[trigger] gates@[k]) matches Some(g)
                    ==> tensors::addressable(g, n_expert as nat)),
            cells@ == cells_upto(gates@, ne, tiers@, store, counts@, l as int),
        decreases gates@.len() - l,
    {
        match gates[l] {
            Some(g) => {
                let ghost before = cells@;
                let mut e: u32 = 0;
                assert(before + Seq::<ExpertCell>::empty() =~= before);
                while e < n_expert
                    invariant
                        e <= n_expert,
                        ne == n_expert,
                        l < gates@.len() <= u32::MAX,
                        tensors::addressable(g, n_expert as nat),
                        cells@ =~= before + Seq::new(
                            e as nat,
                            |x: int| cell_of(g, l as int, x, ne, tiers@, store, counts@),
                        ),
                    decreases n_expert - e,
                {
                    proof {
                        tensors::lemma_slab_bound(g, e as int, n_expert as nat);
                        assert(0 <= l * n_expert <= 0xffff_ffff * 0xffff_ffff) by (nonlinear_arith)
                            requires
                                0 <= l <= 0xffff_ffff,
                                0 <= n_expert <= 0xffff_ffff,
                        ;
                    }
                    let r = g.slab(e as u64);
                    let tier: u8 = if tiered(tiers, r.offset) {
                        3
                    } else if store.contains(r.offset) {
                        2
                    } else {
                        0
                    };
                    let at: u128 = l as u128 * n_expert as u128 + e as u128;
                    let heat: u64 = if at < counts.len() as u128 {
                        counts[at as usize]
                    } else {
                        0
                    };
                    cells.push(ExpertCell { layer: l as u32, expert: e, tier, heat });
                    e = e + 1;
                }
                assert(cells@ =~= cells_upto(gates@, ne, tiers@, store, counts@, l + 1));
            },
            None => {},
        }
        l = l + 1;
    }
    cells
}

} // verus!
