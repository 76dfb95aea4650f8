//! One layer's experts: where their slabs lie, which of them a batch needs,
//! and where each of those currently is.

use std::collections::HashMap;
use vstd::prelude::*;

use crate::dev_cache::DeviceSlabCache;
use crate::sort;
use crate::store::{Read, StreamingStore};
use crate::tensors;
use crate::tensors::ExpertTensor;

verus! {

broadcast use vstd::std_specs::hash::group_hash_axioms;

/// The routed experts of one layer, and the bank of always-selected shared
/// experts where the layer has one. Ids from `n_expert` on are bank ids.
#[derive(Clone, Copy, Debug)]
pub struct ExpertBank {
    pub gate: ExpertTensor,
    pub up: ExpertTensor,
    pub down: ExpertTensor,
    /// Where the up rows start inside a shared gate slab;
    /// zero when there is none.
    pub fused_up_off: u64,
    pub sink: Option<[ExpertTensor; 3]>,
    pub n_expert: u32,
    pub n_sink: u32,
}

impl ExpertBank {
    /// Every slab has an offset that fits 64 bits, and ids fit 32.
    pub open spec fn wf(&self) -> bool {
        &&& self.n_expert + self.n_sink <= u32::MAX
        &&& tensors::addressable(self.gate, self.n_expert as nat)
        &&& tensors::addressable(self.up, self.n_expert as nat)
        &&& tensors::addressable(self.down, self.n_expert as nat)
        &&& match self.sink {
            Some(s) => tensors::addressable(s@[0], self.n_sink as nat) && tensors::addressable(
                s@[1],
                self.n_sink as nat,
            ) && tensors::addressable(s@[2], self.n_sink as nat),
            None => self.n_sink == 0,
        }
    }

    /// Number of ids.
    pub open spec fn limit(&self) -> u32 {
        (self.n_expert + self.n_sink) as u32
    }

    /// The tensor that holds part `k` (gate, up, down) of expert `e`.
    pub open spec fn part(&self, e: u32, k: int) -> ExpertTensor {
        if e < self.n_expert {
            if k == 0 {
                self.gate
            } else if k == 1 {
                self.up
            } else {
                self.down
            }
        } else {
            self.sink->0@[k]
        }
    }

    /// The slab of part `k` of expert `e`.
    pub open spec fn slab_of(&self, e: u32, k: int) -> Read {
        let t = self.part(e, k);
        let at = if e < self.n_expert { e as int } else { e - self.n_expert };
        Read { offset: tensors::slab_offset(t, at) as u64, len: t.expert_bytes }
    }

    /// The three slabs of an expert.
    pub open spec fn slabs(&self, e: u32) -> Seq<Read> {
        seq![self.slab_of(e, 0), self.slab_of(e, 1), self.slab_of(e, 2)]
    }

    /// The three slabs of an expert: gate, up, down.
    pub fn slabs_of(&self, e: u32) -> (r: [Read; 3])
        requires
            self.wf(),
            e < self.limit(),
        ensures
            r@ == self.slabs(e),
    {
        if e < self.n_expert {
            proof {
                tensors::lemma_slab_bound(self.gate, e as int, self.n_expert as nat);
                tensors::lemma_slab_bound(self.up, e as int, self.n_expert as nat);
                tensors::lemma_slab_bound(self.down, e as int, self.n_expert as nat);
            }
            let r = [self.gate.slab(e as u64), self.up.slab(e as u64), self.down.slab(e as u64)];
            assert(r@ =~= self.slabs(e));
            r
        } else {
            let s = self.sink.unwrap();
            let le: u64 = (e - self.n_expert) as u64;
            proof {
                tensors::lemma_slab_bound(s@[0], le as int, self.n_sink as nat);
                tensors::lemma_slab_bound(s@[1], le as int, self.n_sink as nat);
                tensors::lemma_slab_bound(s@[2], le as int, self.n_sink as nat);
            }
            let r = [s[0].slab(le), s[1].slab(le), s[2].slab(le)];
            assert(r@ =~= self.slabs(e));
            r
        }
    }

    /// The shared bank can join the routed launch: same encoding and row
    /// width, part by part.
    pub open spec fn bank_matches(&self) -> bool {
        match self.sink {
            None => true,
            Some(s) => {
                &&& s@[0].quant == self.gate.quant && s@[0].row_bytes == self.gate.row_bytes
                &&& s@[1].quant == self.up.quant && s@[1].row_bytes == self.up.row_bytes
                &&& s@[2].quant == self.down.quant && s@[2].row_bytes == self.down.row_bytes
            },
        }
    }

    /// True when the shared bank can join the routed launch.
    pub fn sink_same(&self) -> (r: bool)
        ensures
            r == self.bank_matches(),
    {
        match &self.sink {
            None => true,
            Some(s) => s[0].quant == self.gate.quant && s[0].row_bytes == self.gate.row_bytes
                && s[1].quant == self.up.quant && s[1].row_bytes == self.up.row_bytes && s[2].quant
                == self.down.quant && s[2].row_bytes == self.down.row_bytes,
        }
    }

    /// The grouped batch launch stages rows in shared memory: two rows of
    /// its gate/up side and one of the down side, four deep, must fit.
    pub open spec fn rows_fit(&self) -> bool {
        let wide: int = if self.gate.row_bytes >= self.up.row_bytes {
            self.gate.row_bytes as int
        } else {
            self.up.row_bytes as int
        };
        2 * wide * 4 <= 49152 && self.down.row_bytes * 4 <= 49152
    }

    /// True when the rows of a grouped batch launch fit shared memory.
    pub fn smem_ok(&self) -> (r: bool)
        ensures
            r == self.rows_fit(),
    {
        let wide: u64 = if self.gate.row_bytes >= self.up.row_bytes {
            self.gate.row_bytes
        } else {
            self.up.row_bytes
        };
        wide <= 6144 && self.down.row_bytes <= 12288
    }
}

/// Some selected id is `e`.
pub open spec fn selects(selected: Seq<i32>, e: u32) -> bool {
    exists|i: int| 0 <= i < selected.len() && (#[trigger] selected[i]) == e
}

/// `d` lists the selected ids below `limit`, each once, ascending.
pub open spec fn is_distinct_of(d: Seq<u32>, selected: Seq<i32>, limit: u32) -> bool {
    &&& forall|i: int, j: int| 0 <= i < j < d.len() ==> (#[trigger] d[i]) < (#[trigger] d[j])
    &&& forall|i: int| 0 <= i < d.len() ==> (#[trigger] d[i]) < limit && selects(selected, d[i])
    &&& forall|e: u32| e < limit && #[trigger] selects(selected, e) ==> d.contains(e)
}

/// The experts a batch needs: the selected ids below `limit`, each once.
pub fn distinct_experts(selected: &Vec<i32>, limit: u32) -> (d: Vec<u32>)
    ensures
        is_distinct_of(d@, selected@, limit),
{
    let mut keys: Vec<u64> = Vec::new();
    let mut i: usize = 0;
    while i < selected.len()
        invariant
            i <= selected@.len(),
            forall|k: int|
                0 <= k < keys@.len() ==> (#[trigger] keys@[k]) < limit && selects(
                    selected@,
                    keys@[k] as u32,
                ),
            forall|j: int|
                0 <= j < i && 0 <= (#[trigger] selected@[j]) && selected@[j] < limit
                    ==> keys@.contains(selected@[j] as u64),
        decreases selected@.len() - i,
    {
        let e: i32 = selected[i];
        let ghost was = keys@;
        if e >= 0 && (e as u32) < limit {
            keys.push(e as u64);
            proof {
                assert(selected@[i as int] == e as u32);
                assert(keys@[was.len() as int] == e as u64);
                assert forall|v: u64| was.contains(v) implies keys@.contains(v) by {
                    let k = choose|k: int| 0 <= k < was.len() && was[k] == v;
                    assert(keys@[k] == v);
                }
            }
        }
        i = i + 1;
    }
    let p = sort::rank_asc(&keys);
    let mut d: Vec<u32> = Vec::new();
    let mut j: usize = 0;
    while j < p.len()
        invariant
            j <= p@.len(),
            sort::ranks(keys@, 0, keys@.len() as int, p@),
            forall|k: int|
                0 <= k < keys@.len() ==> (#[trigger] keys@[k]) < limit && selects(
                    selected@,
                    keys@[k] as u32,
                ),
            forall|x: int, y: int| 0 <= x < y < d@.len() ==> (#[trigger] d@[x]) < (#[trigger] d@[y]),
            forall|x: int|
                0 <= x < d@.len() ==> (#[trigger] d@[x]) < limit && selects(selected@, d@[x]),
            j > 0 ==> d@.len() > 0 && d@.last() == keys@[p@[j - 1] as int],
            j == 0 ==> d@.len() == 0,
            forall|x: int| 0 <= x < j ==> d@.contains(keys@[#[trigger] p@[x] as int] as u32),
        decreases p@.len() - j,
    {
        let e: u32 = keys[p[j]] as u32;
        let fresh: bool = d.len() == 0 || d[d.len() - 1] != e;
        let ghost was = d@;
        proof {
            if j > 0 {
                assert(sort::before(keys@, p@[j - 1] as int, p@[j as int] as int));
            }
        }
        if fresh {
            d.push(e);
        }
        proof {
            assert forall|v: u32| was.contains(v) implies d@.contains(v) by {
                let k = choose|k: int| 0 <= k < was.len() && was[k] == v;
                assert(d@[k] == v);
            }
            assert(d@.last() == e);
            assert(d@[d@.len() - 1] == e);
            assert(d@.contains(e));
        }
        j = j + 1;
    }
    proof {
        assert forall|e: u32| e < limit && #[trigger] selects(selected@, e) implies d@.contains(e) by {
            let i = choose|i: int| 0 <= i < selected@.len() && (#[trigger] selected@[i]) == e;
            assert(keys@.contains(selected@[i] as u64));
            let k = choose|k: int| 0 <= k < keys@.len() && keys@[k] == e as u64;
            assert(p@.contains(k as usize));
            let x = choose|x: int| 0 <= x < p@.len() && p@[x] == k as usize;
            assert(d@.contains(keys@[p@[x] as int] as u32));
        }
    }
    d
}

/// Resident tier maps: slab offset to its place in the tier's pool.
pub type TierMap = HashMap<u64, usize>;

/// All three slabs of `e` are in this tier.
pub open spec fn tier_holds(t: Map<u64, usize>, slabs: Seq<Read>) -> bool {
    t.contains_key(slabs[0].offset) && t.contains_key(slabs[1].offset) && t.contains_key(
        slabs[2].offset,
    )
}

/// The first of `n` tiers that holds all three slabs.
pub open spec fn first_tier(tiers: Seq<TierMap>, slabs: Seq<Read>, n: int) -> Option<int>
    decreases n,
{
    if n <= 0 {
        None
    } else {
        match first_tier(tiers, slabs, n - 1) {
            Some(i) => Some(i),
            None => if tier_holds(tiers[n - 1]@, slabs) { Some(n - 1) } else { None },
        }
    }
}

proof fn lemma_first_tier(tiers: Seq<TierMap>, slabs: Seq<Read>, n: int, m: int)
    requires
        n <= m,
        first_tier(tiers, slabs, n) is Some,
    ensures
        first_tier(tiers, slabs, m) == first_tier(tiers, slabs, n),
    decreases m - n,
{
    if n < m {
        lemma_first_tier(tiers, slabs, n, m - 1);
    }
}

fn find_tier(tiers: &Vec<TierMap>, slabs: &[Read; 3]) -> (r: Option<usize>)
    ensures
        match r {
            Some(i) => first_tier(tiers@, slabs@, tiers@.len() as int) == Some(i as int) && i
                < tiers@.len() && tier_holds(tiers@[i as int]@, slabs@),
            None => first_tier(tiers@, slabs@, tiers@.len() as int) is None,
        },
{
    let mut i: usize = 0;
    while i < tiers.len()
        invariant
            i <= tiers@.len(),
            first_tier(tiers@, slabs@, i as int) is None,
        decreases tiers@.len() - i,
    {
        let t: &TierMap = &tiers[i];
        if t.contains_key(&slabs[0].offset) && t.contains_key(&slabs[1].offset) && t.contains_key(
            &slabs[2].offset,
        ) {
            proof {
                lemma_first_tier(tiers@, slabs@, i + 1, tiers@.len() as int);
            }
            return Some(i);
        }
        i = i + 1;
    }
    None
}

/// Where an expert's slabs are before a batch is resolved.
#[derive(Clone, Copy, Debug, PartialEq, Eq, Structural)]
pub struct Facts {
    /// The tier that holds the whole expert.
    pub tier: Option<usize>,
    /// Its gate slab is resident with the draft layer.
    pub mtp: bool,
    /// Some slab is in the device cache.
    pub dev_any: bool,
    /// All slabs are in the host cache.
    pub host_all: bool,
    /// Some slab is in the host cache.
    pub host_any: bool,
}

/// Where an expert with these slabs is. An expert whose gate slab is
/// resident with the draft layer has no tier; bank experts are never
/// resident there.
pub open spec fn facts_of(
    slabs: Seq<Read>,
    is_sink: bool,
    tiers: Seq<TierMap>,
    mtp: Map<u64, usize>,
    dev: Map<u64, u32>,
    host: Set<u64>,
) -> Facts {
    let in_mtp = mtp.contains_key(slabs[0].offset);
    Facts {
        tier: if !is_sink && in_mtp {
            None
        } else {
            match first_tier(tiers, slabs, tiers.len() as int) {
                Some(i) => Some(i as usize),
                None => None,
            }
        },
        mtp: in_mtp,
        dev_any: dev.contains_key(slabs[0].offset) || dev.contains_key(slabs[1].offset)
            || dev.contains_key(slabs[2].offset),
        host_all: host.contains(slabs[0].offset) && host.contains(slabs[1].offset) && host.contains(
            slabs[2].offset,
        ),
        host_any: host.contains(slabs[0].offset) || host.contains(slabs[1].offset) || host.contains(
            slabs[2].offset,
        ),
    }
}

/// `facts` describes the experts of `d`, in order.
pub open spec fn are_facts<S>(
    facts: Seq<Facts>,
    d: Seq<u32>,
    bank: &ExpertBank,
    tiers: Seq<TierMap>,
    mtp: Map<u64, usize>,
    dev: Map<u64, u32>,
    store: Map<u64, crate::store::CacheEntry<S>>,
) -> bool {
    &&& facts.len() == d.len()
    &&& forall|i: int|
        0 <= i < d.len() ==> #[trigger] facts[i] == facts_of(
            bank.slabs(d[i]),
            d[i] >= bank.n_expert,
            tiers,
            mtp,
            dev,
            store.dom(),
        )
}

/// Where the experts of a batch are.
pub fn expert_facts<S>(
    d: &Vec<u32>,
    bank: &ExpertBank,
    tiers: &Vec<TierMap>,
    mtp: &HashMap<u64, usize>,
    dev: &DeviceSlabCache,
    store: &StreamingStore<S>,
) -> (facts: Vec<Facts>)
    requires
        bank.wf(),
        forall|i: int| 0 <= i < d@.len() ==> (#[trigger] d@[i]) < bank.limit(),
    ensures
        are_facts(facts@, d@, bank, tiers@, mtp@, dev.map@, store.cache@),
{
    let mut out: Vec<Facts> = Vec::new();
    let mut i: usize = 0;
    while i < d.len()
        invariant
            i <= d@.len(),
            bank.wf(),
            forall|k: int| 0 <= k < d@.len() ==> (#[trigger] d@[k]) < bank.limit(),
            out@.len() == i,
            forall|k: int|
                0 <= k < i ==> #[trigger] out@[k] == facts_of(
                    bank.slabs(d@[k]),
                    d@[k] >= bank.n_expert,
                    tiers@,
                    mtp@,
                    dev.map@,
                    store.cache@.dom(),
                ),
        decreases d@.len() - i,
    {
        let e: u32 = d[i];
        let slabs = bank.slabs_of(e);
        let is_sink: bool = e >= bank.n_expert;
        let in_mtp: bool = mtp.contains_key(&slabs[0].offset);
        let tier: Option<usize> = if !is_sink && in_mtp {
            None
        } else {
            find_tier(tiers, &slabs)
        };
        let h0: bool = store.contains(slabs[0].offset);
        let h1: bool = store.contains(slabs[1].offset);
        let h2: bool = store.contains(slabs[2].offset);
        let dev_any: bool = dev.map.contains_key(&slabs[0].offset) || dev.map.contains_key(
            &slabs[1].offset,
        ) || dev.map.contains_key(&slabs[2].offset);
        out.push(
            Facts {
                tier,
                mtp: in_mtp,
                dev_any,
                host_all: h0 && h1 && h2,
                host_any: h0 || h1 || h2,
            },
        );
        i = i + 1;
    }
    out
}

} // verus!
