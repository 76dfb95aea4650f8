//! Expert resolve: from the routed slots of a batch to where each slot's
//! weights are read.

use std::collections::HashMap;
use vstd::prelude::*;

use crate::bank::{ExpertBank, Facts};
use crate::bank;
use crate::dev_cache;
use crate::dev_cache::{Admission, DeviceSlabCache, SlotMeta};
use crate::lanes;
use crate::store;
use crate::store::Read;

verus! {

broadcast use vstd::std_specs::hash::group_hash_axioms;

/// Where a slab can be read by a kernel.
#[derive(Clone, Copy, Debug, PartialEq, Eq, Structural)]
pub enum Place {
    /// At this byte of the draft layer's resident pool.
    Draft(usize),
    /// In this slot of the device cache.
    Slot(u32),
    /// At this byte of the staging arena.
    Stage(usize),
    /// At this byte of the arena filled ahead of the layer.
    Ahead(usize),
    /// In host memory that the device reads directly.
    Host,
}

/// `acc` with one more read, unless the last one starts at the same offset.
pub open spec fn with_read(acc: Seq<Read>, r: Read) -> Seq<Read> {
    if acc.len() > 0 && acc.last().offset == r.offset {
        acc
    } else {
        acc.push(r)
    }
}

/// Reads for the first `n` experts: three slabs for each expert that neither
/// a tier nor the lane serves; gate and up slabs that coincide are read
/// once.
pub open spec fn reads_for(
    bank: &ExpertBank,
    d: Seq<u32>,
    facts: Seq<Facts>,
    lane: Seq<u32>,
    verify: bool,
    n: int,
) -> Seq<Read>
    decreases n,
{
    if n <= 0 {
        Seq::empty()
    } else {
        let head = reads_for(bank, d, facts, lane, verify, n - 1);
        if facts[n - 1].tier is Some || (lane.contains(d[n - 1]) && !verify) {
            head
        } else {
            let s = bank.slabs(d[n - 1]);
            with_read(with_read(with_read(head, s[0]), s[1]), s[2])
        }
    }
}

fn push_read(acc: &mut Vec<Read>, r: Read)
    ensures
        final(acc)@ == with_read(old(acc)@, r),
{
    if acc.len() > 0 && acc[acc.len() - 1].offset == r.offset {
        return ;
    }
    acc.push(r);
}

/// The reads a batch needs.
pub fn read_list(
    bank: &ExpertBank,
    d: &Vec<u32>,
    facts: &Vec<Facts>,
    lane: &Vec<u32>,
    verify: bool,
) -> (r: Vec<Read>)
    requires
        bank.wf(),
        facts@.len() == d@.len(),
        forall|i: int| 0 <= i < d@.len() ==> (#[trigger] d@[i]) < bank.limit(),
    ensures
        r@ == reads_for(bank, d@, facts@, lane@, verify, d@.len() as int),
{
    let mut out: Vec<Read> = Vec::new();
    let mut i: usize = 0;
    while i < d.len()
        invariant
            i <= d@.len(),
            bank.wf(),
            facts@.len() == d@.len(),
            forall|k: int| 0 <= k < d@.len() ==> (#[trigger] d@[k]) < bank.limit(),
            out@ == reads_for(bank, d@, facts@, lane@, verify, i as int),
        decreases d@.len() - i,
    {
        let skip: bool = facts[i].tier.is_some() || (lanes::lists(lane, d[i]) && !verify);
        if !skip {
            let s = bank.slabs_of(d[i]);
            push_read(&mut out, s[0]);
            push_read(&mut out, s[1]);
            push_read(&mut out, s[2]);
        }
        i = i + 1;
    }
    out
}

/// Slabs of the tier-resident experts among the first `n`: they are counted
/// as requested though nothing is fetched.
pub open spec fn tier_slabs(bank: &ExpertBank, d: Seq<u32>, facts: Seq<Facts>, n: int) -> Seq<Read>
    decreases n,
{
    if n <= 0 {
        Seq::empty()
    } else if facts[n - 1].tier is Some {
        tier_slabs(bank, d, facts, n - 1) + bank.slabs(d[n - 1])
    } else {
        tier_slabs(bank, d, facts, n - 1)
    }
}

/// Slabs of the tier-resident experts of a batch.
pub fn tier_touches(bank: &ExpertBank, d: &Vec<u32>, facts: &Vec<Facts>) -> (r: Vec<Read>)
    requires
        bank.wf(),
        facts@.len() == d@.len(),
        forall|i: int| 0 <= i < d@.len() ==> (#[trigger] d@[i]) < bank.limit(),
    ensures
        r@ == tier_slabs(bank, d@, facts@, d@.len() as int),
{
    let mut out: Vec<Read> = Vec::new();
    let mut i: usize = 0;
    while i < d.len()
        invariant
            i <= d@.len(),
            bank.wf(),
            facts@.len() == d@.len(),
            forall|k: int| 0 <= k < d@.len() ==> (#[trigger] d@[k]) < bank.limit(),
            out@ == tier_slabs(bank, d@, facts@, i as int),
        decreases d@.len() - i,
    {
        if facts[i].tier.is_some() {
            let ghost was = out@;
            let s = bank.slabs_of(d[i]);
            out.push(s[0]);
            out.push(s[1]);
            out.push(s[2]);
            assert(out@ =~= was + bank.slabs(d@[i as int]));
        }
        i = i + 1;
    }
    out
}

/// Touch counts after one more request for each of `reads`.
pub open spec fn all_touched(touch: Map<u64, (u64, u64)>, reads: Seq<Read>) -> Map<u64, (u64, u64)>
    decreases reads.len(),
{
    if reads.len() == 0 {
        touch
    } else {
        dev_cache::touched(
            all_touched(touch, reads.drop_last()),
            reads.last().offset,
            reads.last().len,
        )
    }
}

/// Every count that `reads` will raise has room for all of them.
pub open spec fn heat_room(touch: Map<u64, (u64, u64)>, reads: Seq<Read>) -> bool {
    forall|i: int|
        0 <= i < reads.len() ==> dev_cache::heat_of(touch, (#[trigger] reads[i]).offset)
            + reads.len() <= u64::MAX
}

/// True when every count that `reads` will raise has room for all of them.
pub fn heat_ok(dev: &DeviceSlabCache, reads: &Vec<Read>) -> (r: bool)
    ensures
        r == heat_room(dev.touch@, reads@),
{
    let n: u64 = reads.len() as u64;
    let mut i: usize = 0;
    while i < reads.len()
        invariant
            i <= reads@.len(),
            n == reads@.len(),
            forall|k: int|
                0 <= k < i ==> dev_cache::heat_of(dev.touch@, (#[trigger] reads@[k]).offset) + n
                    <= u64::MAX,
        decreases reads@.len() - i,
    {
        if dev.heat(reads[i].offset) > u64::MAX - n {
            assert(reads@[i as int].offset == reads@[i as int].offset);
            return false;
        }
        i = i + 1;
    }
    true
}

proof fn lemma_all_touched(touch: Map<u64, (u64, u64)>, reads: Seq<Read>, off: u64)
    requires
        dev_cache::heat_of(touch, off) + reads.len() <= u64::MAX,
    ensures
        dev_cache::heat_of(all_touched(touch, reads), off) <= dev_cache::heat_of(touch, off)
            + reads.len(),
    decreases reads.len(),
{
    if reads.len() > 0 {
        lemma_all_touched(touch, reads.drop_last(), off);
    }
}

/// Count one more request for each of `reads`.
pub fn bump_all(dev: &mut DeviceSlabCache, reads: &Vec<Read>)
    requires
        old(dev).wf(),
        heat_room(old(dev).touch@, reads@),
    ensures
        final(dev).wf(),
        final(dev).state() == old(dev).state(),
        final(dev).touch@ == all_touched(old(dev).touch@, reads@),
        final(dev).slab_bytes == old(dev).slab_bytes,
        final(dev).pool_len == old(dev).pool_len,
        final(dev).next_group == old(dev).next_group,
        final(dev).hits == old(dev).hits,
        final(dev).misses == old(dev).misses,
{
    let mut i: usize = 0;
    assert(reads@.take(0) =~= Seq::<Read>::empty());
    while i < reads.len()
        invariant
            i <= reads@.len(),
            heat_room(old(dev).touch@, reads@),
            dev.wf(),
            dev.state() == old(dev).state(),
            dev.touch@ == all_touched(old(dev).touch@, reads@.take(i as int)),
            dev.slab_bytes == old(dev).slab_bytes,
            dev.pool_len == old(dev).pool_len,
            dev.next_group == old(dev).next_group,
            dev.hits == old(dev).hits,
            dev.misses == old(dev).misses,
        decreases reads@.len() - i,
    {
        let r: Read = reads[i];
        proof {
            assert(reads@.take(i + 1).drop_last() =~= reads@.take(i as int));
            assert(reads@.take(i + 1).last() == reads@[i as int]);
            lemma_all_touched(old(dev).touch@, reads@.take(i as int), reads@[i as int].offset);
        }
        dev.bump(r.offset, r.len);
        i = i + 1;
    }
    assert(reads@.take(i as int) =~= reads@);
}

/// State of a resolve on the device side.
#[verifier::ext_equal]
pub struct WantState {
    pub resolved: Map<u64, Place>,
    pub wants: Seq<Read>,
    pub touch: Map<u64, (u64, u64)>,
    pub meta: Seq<SlotMeta>,
    pub hits: int,
    pub misses: int,
}

/// One read: resident with the draft layer, already resolved, cached on the
/// device, or wanted from the host. On unified memory the device cache is
/// not asked.
pub open spec fn want_step(
    s: WantState,
    r: Read,
    mtp: Map<u64, usize>,
    unified: bool,
    map: Map<u64, u32>,
) -> WantState {
    if mtp.contains_key(r.offset) {
        WantState { resolved: s.resolved.insert(r.offset, Place::Draft(mtp[r.offset])), ..s }
    } else if s.resolved.contains_key(r.offset) {
        WantState { touch: dev_cache::touched(s.touch, r.offset, r.len), ..s }
    } else if unified {
        WantState { wants: s.wants.push(r), ..s }
    } else {
        let touch = dev_cache::touched(s.touch, r.offset, r.len);
        if map.contains_key(r.offset) {
            let slot = map[r.offset];
            WantState {
                resolved: s.resolved.insert(r.offset, Place::Slot(slot)),
                touch,
                meta: s.meta.update(
                    slot as int,
                    SlotMeta {
                        freq: dev_cache::heat_of(touch, r.offset),
                        ..s.meta[slot as int]
                    },
                ),
                hits: s.hits + 1,
                ..s
            }
        } else {
            WantState { wants: s.wants.push(r), touch, misses: s.misses + 1, ..s }
        }
    }
}

/// All reads in order.
pub open spec fn want_all(
    s: WantState,
    reads: Seq<Read>,
    mtp: Map<u64, usize>,
    unified: bool,
    map: Map<u64, u32>,
) -> WantState
    decreases reads.len(),
{
    if reads.len() == 0 {
        s
    } else {
        want_step(want_all(s, reads.drop_last(), mtp, unified, map), reads.last(), mtp, unified, map)
    }
}

proof fn lemma_want_counts(
    s: WantState,
    reads: Seq<Read>,
    mtp: Map<u64, usize>,
    unified: bool,
    map: Map<u64, u32>,
    off: u64,
)
    requires
        dev_cache::heat_of(s.touch, off) + reads.len() <= u64::MAX,
    ensures
        ({
            let t = want_all(s, reads, mtp, unified, map);
            &&& dev_cache::heat_of(t.touch, off) <= dev_cache::heat_of(s.touch, off) + reads.len()
            &&& s.hits <= t.hits <= s.hits + reads.len()
            &&& s.misses <= t.misses <= s.misses + reads.len()
        }),
    decreases reads.len(),
{
    if reads.len() > 0 {
        lemma_want_counts(s, reads.drop_last(), mtp, unified, map, off);
    }
}

/// Every read of a batch ends up resolved or wanted, and what was resolved
/// before stays resolved.
pub proof fn every_read_is_served(
    s: WantState,
    reads: Seq<Read>,
    mtp: Map<u64, usize>,
    unified: bool,
    map: Map<u64, u32>,
)
    ensures
        ({
            let t = want_all(s, reads, mtp, unified, map);
            &&& forall|i: int|
                0 <= i < reads.len() ==> t.resolved.contains_key((#[trigger] reads[i]).offset)
                    || t.wants.contains(reads[i])
            &&& forall|k: u64| #[trigger]
                s.resolved.contains_key(k) ==> t.resolved.contains_key(k)
            &&& forall|r: Read| #[trigger] s.wants.contains(r) ==> t.wants.contains(r)
        }),
    decreases reads.len(),
{
    if reads.len() > 0 {
        let h = reads.drop_last();
        every_read_is_served(s, h, mtp, unified, map);
        let a = want_all(s, h, mtp, unified, map);
        let t = want_all(s, reads, mtp, unified, map);
        let r = reads.last();
        assert(forall|x: Read| #[trigger] a.wants.contains(x) ==> t.wants.contains(x)) by {
            assert forall|x: Read| #[trigger] a.wants.contains(x) implies t.wants.contains(x) by {
                let k = choose|k: int| 0 <= k < a.wants.len() && a.wants[k] == x;
                assert(t.wants[k] == x);
            }
        }
        if !t.resolved.contains_key(r.offset) {
            assert(t.wants[t.wants.len() - 1] == r);
        }
        assert forall|i: int| 0 <= i < reads.len() implies t.resolved.contains_key(
            (#[trigger] reads[i]).offset,
        ) || t.wants.contains(reads[i]) by {
            if i < h.len() {
                assert(h[i] == reads[i]);
            }
        }
    }
}

/// The device side of a resolve as it stands.
pub open spec fn want_start(dev: &DeviceSlabCache, resolved: Map<u64, Place>) -> WantState {
    WantState {
        resolved,
        wants: Seq::empty(),
        touch: dev.touch@,
        meta: dev.meta@,
        hits: dev.hits as int,
        misses: dev.misses as int,
    }
}

/// Resolve what is already on the device; return what has to come from the
/// host.
pub fn split_wants(
    reads: &Vec<Read>,
    mtp: &HashMap<u64, usize>,
    unified: bool,
    resolved: &mut HashMap<u64, Place>,
    dev: &mut DeviceSlabCache,
) -> (wants: Vec<Read>)
    requires
        old(dev).wf(),
        heat_room(old(dev).touch@, reads@),
        old(dev).hits + reads@.len() <= u64::MAX,
        old(dev).misses + reads@.len() <= u64::MAX,
    ensures
        final(dev).wf(),
        ({
            let t = want_all(
                want_start(old(dev), old(resolved)@),
                reads@,
                mtp@,
                unified,
                old(dev).map@,
            );
            &&& want_start(final(dev), final(resolved)@) == (WantState { wants: Seq::empty(), ..t })
            &&& wants@ == t.wants
        }),
        final(dev).map@ == old(dev).map@,
        final(dev).free_list@ == old(dev).free_list@,
        final(dev).ungrouped == old(dev).ungrouped,
        final(dev).slab_bytes == old(dev).slab_bytes,
        final(dev).pool_len == old(dev).pool_len,
        final(dev).next_group == old(dev).next_group,
{
    let ghost s0 = want_start(dev, resolved@);
    let ghost map = dev.map@;
    let mut wants: Vec<Read> = Vec::new();
    let mut i: usize = 0;
    assert(reads@.take(0) =~= Seq::<Read>::empty());
    while i < reads.len()
        invariant
            i <= reads@.len(),
            s0 == want_start(old(dev), old(resolved)@),
            map == old(dev).map@,
            heat_room(s0.touch, reads@),
            s0.hits + reads@.len() <= u64::MAX,
            s0.misses + reads@.len() <= u64::MAX,
            dev.wf(),
            dev.map@ == map,
            dev.free_list@ == old(dev).free_list@,
            dev.ungrouped == old(dev).ungrouped,
            dev.slab_bytes == old(dev).slab_bytes,
            dev.pool_len == old(dev).pool_len,
            dev.next_group == old(dev).next_group,
            (WantState { wants: wants@, ..want_start(dev, resolved@) }) == want_all(
                s0,
                reads@.take(i as int),
                mtp@,
                unified,
                map,
            ),
        decreases reads@.len() - i,
    {
        let r: Read = reads[i];
        let ghost t = want_all(s0, reads@.take(i as int), mtp@, unified, map);
        proof {
            assert(reads@.take(i + 1).drop_last() =~= reads@.take(i as int));
            assert(reads@.take(i + 1).last() == reads@[i as int]);
            lemma_want_counts(s0, reads@.take(i as int), mtp@, unified, map, reads@[i as int].offset);
        }
        match mtp.get(&r.offset) {
            Some(po) => {
                resolved.insert(r.offset, Place::Draft(*po));
            },
            None => {
                if resolved.contains_key(&r.offset) {
                    dev.bump(r.offset, r.len);
                } else if unified {
                    wants.push(r);
                } else {
                    match dev.get(r.offset, r.len) {
                        Some(slot) => {
                            resolved.insert(r.offset, Place::Slot(slot));
                        },
                        None => {
                            wants.push(r);
                        },
                    }
                }
            },
        }
        proof {
            assert((WantState { wants: wants@, ..want_start(dev, resolved@) }) =~= want_step(
                t,
                r,
                mtp@,
                unified,
                map,
            ));
        }
        i = i + 1;
    }
    proof {
        assert(reads@.take(i as int) =~= reads@);
        let t = want_all(s0, reads@, mtp@, unified, map);
        assert(want_start(dev, resolved@) =~= WantState { wants: Seq::empty(), ..t });
    }
    wants
}

/// Where each wanted slab starts in the staging arena: back to back.
pub fn stage_bases(wants: &Vec<Read>) -> (b: Vec<usize>)
    requires
        store::total_len(wants@) <= usize::MAX,
    ensures
        b@.len() == wants@.len(),
        forall|i: int|
            0 <= i < wants@.len() ==> #[trigger] b@[i] == store::total_len(wants@.take(i)),
{
    let mut out: Vec<usize> = Vec::new();
    let mut total: usize = 0;
    let mut i: usize = 0;
    assert(wants@.take(0) =~= Seq::<Read>::empty());
    while i < wants.len()
        invariant
            i <= wants@.len(),
            store::total_len(wants@) <= usize::MAX,
            total == store::total_len(wants@.take(i as int)),
            out@.len() == i,
            forall|k: int| 0 <= k < i ==> #[trigger] out@[k] == store::total_len(wants@.take(k)),
        decreases wants@.len() - i,
    {
        out.push(total);
        proof {
            assert(wants@.take(i + 1).drop_last() =~= wants@.take(i as int));
            assert(wants@.take(i + 1).last() == wants@[i as int]);
            store::lemma_total_len_take(wants@, i + 1);
        }
        total = total + wants[i].len as usize;
        i = i + 1;
    }
    out
}

/// Staged slabs do not overlap, and all of them end within the total.
pub proof fn staged_slabs_are_disjoint(wants: Seq<Read>, i: int, j: int)
    requires
        0 <= i < j < wants.len(),
    ensures
        store::total_len(wants.take(i)) + wants[i].len <= store::total_len(wants.take(j)),
        store::total_len(wants.take(j)) + wants[j].len <= store::total_len(wants),
{
    assert(wants.take(i + 1).drop_last() =~= wants.take(i));
    assert(wants.take(j).take(i + 1) =~= wants.take(i + 1));
    store::lemma_total_len_take(wants.take(j), i + 1);
    assert(wants.take(j + 1).drop_last() =~= wants.take(j));
    store::lemma_total_len_take(wants, j + 1);
}

/// What serves one routed slot.
#[derive(Clone, Copy, Debug, PartialEq, Eq, Structural)]
pub enum SlotUse {
    /// Not an expert id: nothing is computed.
    Null,
    /// A resident tier, in its routed pass or in its shared-bank pass.
    Tier { tier: usize, bank_pass: bool },
    /// The CPU lane.
    Lane,
    /// The primary card's shared-bank pass.
    Bank,
    /// The primary card's routed pass.
    Primary,
}

/// What serves a slot that selects expert `e`.
pub open spec fn use_of(
    e: u32,
    n_expert: u32,
    tier: Option<usize>,
    on_lane: bool,
    same: bool,
) -> SlotUse {
    let is_sink = e >= n_expert;
    match tier {
        Some(t) => SlotUse::Tier { tier: t, bank_pass: is_sink && !same },
        None => if on_lane {
            SlotUse::Lane
        } else if is_sink && !same {
            SlotUse::Bank
        } else {
            SlotUse::Primary
        },
    }
}

fn position(d: &Vec<u32>, e: u32) -> (r: Option<usize>)
    ensures
        match r {
            Some(i) => i < d@.len() && d@[i as int] == e,
            None => !d@.contains(e),
        },
{
    let mut i: usize = 0;
    while i < d.len()
        invariant
            i <= d@.len(),
            forall|k: int| 0 <= k < i ==> d@[k] != e,
        decreases d@.len() - i,
    {
        if d[i] == e {
            return Some(i);
        }
        i = i + 1;
    }
    None
}

/// What serves each routed slot. Every slot has exactly one server; ids that
/// are no expert have none.
pub fn slot_uses(
    selected: &Vec<i32>,
    d: &Vec<u32>,
    facts: &Vec<Facts>,
    lane_a: &Vec<u32>,
    lane_b: &Vec<u32>,
    n_expert: u32,
    limit: u32,
    same: bool,
) -> (r: Vec<SlotUse>)
    requires
        facts@.len() == d@.len(),
        bank::is_distinct_of(d@, selected@, limit),
    ensures
        r@.len() == selected@.len(),
        forall|s: int|
            0 <= s < selected@.len() && !(0 <= selected@[s] < limit) ==> #[trigger] r@[s]
                == SlotUse::Null,
        forall|s: int, i: int|
            0 <= s < selected@.len() && 0 <= i < d@.len() && selected@[s] == d@[i]
                ==> #[trigger] r@[s] == use_of(
                #[trigger] d@[i],
                n_expert,
                facts@[i].tier,
                lane_a@.contains(d@[i]) || lane_b@.contains(d@[i]),
                same,
            ),
{
    let mut out: Vec<SlotUse> = Vec::new();
    let mut s: usize = 0;
    while s < selected.len()
        invariant
            s <= selected@.len(),
            facts@.len() == d@.len(),
            bank::is_distinct_of(d@, selected@, limit),
            out@.len() == s,
            forall|x: int|
                0 <= x < s && !(0 <= selected@[x] < limit) ==> #[trigger] out@[x] == SlotUse::Null,
            forall|x: int, i: int|
                0 <= x < s && 0 <= i < d@.len() && selected@[x] == d@[i] ==> #[trigger] out@[x]
                    == use_of(
                    #[trigger] d@[i],
                    n_expert,
                    facts@[i].tier,
                    lane_a@.contains(d@[i]) || lane_b@.contains(d@[i]),
                    same,
                ),
        decreases selected@.len() - s,
    {
        let e: i32 = selected[s];
        let mut u = SlotUse::Null;
        if e >= 0 && (e as u32) < limit {
            let k: u32 = e as u32;
            assert(selected@[s as int] == k);
            assert(bank::selects(selected@, k));
            match position(d, k) {
                Some(i) => {
                    let is_sink: bool = k >= n_expert;
                    u = match facts[i].tier {
                        Some(t) => SlotUse::Tier { tier: t, bank_pass: is_sink && !same },
                        None => if lanes::lists(lane_a, k) || lanes::lists(lane_b, k) {
                            SlotUse::Lane
                        } else if is_sink && !same {
                            SlotUse::Bank
                        } else {
                            SlotUse::Primary
                        },
                    };
                    proof {
                        assert forall|j: int| 0 <= j < d@.len() && d@[j] == k implies j == i by {
                            if j < i {
                                assert(d@[j] < d@[i as int]);
                            } else if j > i {
                                assert(d@[i as int] < d@[j]);
                            }
                        }
                    }
                },
                None => {},
            }
        }
        out.push(u);
        s = s + 1;
    }
    out
}

/// Where the three weights of a slot are read. The up rows start `up_off`
/// bytes behind `up`.
#[derive(Clone, Copy, Debug, PartialEq, Eq, Structural)]
pub struct Refs {
    pub gate: Place,
    pub up: Place,
    pub up_off: u64,
    pub down: Place,
}

/// The weights of expert `e`, all of whose slabs are resolved.
pub fn expert_refs(bank: &ExpertBank, e: u32, resolved: &HashMap<u64, Place>) -> (r: Refs)
    requires
        bank.wf(),
        e < bank.limit(),
        forall|k: int|
            0 <= k < 3 ==> resolved@.contains_key((#[trigger] bank.slabs(e)[k]).offset),
    ensures
        r.gate == resolved@[bank.slabs(e)[0].offset],
        r.up == resolved@[bank.slabs(e)[1].offset],
        r.up_off == if e < bank.n_expert { bank.fused_up_off } else { 0 },
        r.down == resolved@[bank.slabs(e)[2].offset],
{
    let s = bank.slabs_of(e);
    proof {
        assert(resolved@.contains_key(bank.slabs(e)[0].offset));
        assert(resolved@.contains_key(bank.slabs(e)[1].offset));
        assert(resolved@.contains_key(bank.slabs(e)[2].offset));
    }
    let gate: Place = *resolved.get(&s[0].offset).unwrap();
    let up: Place = *resolved.get(&s[1].offset).unwrap();
    let down: Place = *resolved.get(&s[2].offset).unwrap();
    Refs { gate, up, up_off: if e < bank.n_expert { bank.fused_up_off } else { 0 }, down }
}

/// Where the three weights of an expert are in a tier's pool.
#[derive(Clone, Copy, Debug, PartialEq, Eq, Structural)]
pub struct TierRefs {
    pub gate: usize,
    pub up: usize,
    pub up_off: u64,
    pub down: usize,
}

/// The weights of expert `e` in a tier that holds it whole.
pub fn tier_refs(bank: &ExpertBank, e: u32, tier: &HashMap<u64, usize>) -> (r: TierRefs)
    requires
        bank.wf(),
        e < bank.limit(),
        bank::tier_holds(tier@, bank.slabs(e)),
    ensures
        r.gate == tier@[bank.slabs(e)[0].offset],
        r.up == tier@[bank.slabs(e)[1].offset],
        r.up_off == if e < bank.n_expert { bank.fused_up_off } else { 0 },
        r.down == tier@[bank.slabs(e)[2].offset],
{
    let s = bank.slabs_of(e);
    let gate: usize = *tier.get(&s[0].offset).unwrap();
    let up: usize = *tier.get(&s[1].offset).unwrap();
    let down: usize = *tier.get(&s[2].offset).unwrap();
    TierRefs { gate, up, up_off: if e < bank.n_expert { bank.fused_up_off } else { 0 }, down }
}

/// A batch is grouped by expert when it is large, few experts serve each
/// token, and the rows fit the launch.
pub open spec fn is_grouped(
    n_tok: u32,
    n_used: u32,
    fits: bool,
    n_ff_exp: u32,
    forbidden: bool,
) -> bool {
    n_tok >= 16 && n_used <= 16 && fits && n_ff_exp % 256 == 0 && !forbidden
}

/// True when a batch is launched grouped by expert.
pub fn grouped(n_tok: u32, n_used: u32, fits: bool, n_ff_exp: u32, forbidden: bool) -> (r: bool)
    ensures
        r == is_grouped(n_tok, n_used, fits, n_ff_exp, forbidden),
{
    n_tok >= 16 && n_used <= 16 && fits && n_ff_exp % 256 == 0 && !forbidden
}

/// The distinct gate places of the first `n` slots, in order of appearance.
pub open spec fn group_keys(gates: Seq<Option<Place>>, n: int) -> Seq<Place>
    decreases n,
{
    if n <= 0 {
        Seq::empty()
    } else {
        let head = group_keys(gates, n - 1);
        match gates[n - 1] {
            Some(p) => if head.contains(p) { head } else { head.push(p) },
            None => head,
        }
    }
}

/// Token and slot of routed slot `s`, packed: the token above four bits of
/// slot.
pub open spec fn packed(s: int, n_used: u32) -> u32 {
    ((s / n_used as int) * 16 + s % n_used as int) as u32
}

/// The packed slots among the first `n` whose gate is `key`.
pub open spec fn group_members(gates: Seq<Option<Place>>, n_used: u32, key: Place, n: int) -> Seq<
    u32,
>
    decreases n,
{
    if n <= 0 {
        Seq::empty()
    } else if gates[n - 1] == Some(key) {
        group_members(gates, n_used, key, n - 1).push(packed(n - 1, n_used))
    } else {
        group_members(gates, n_used, key, n - 1)
    }
}

/// The members of the first `k` groups, one group after the other.
pub open spec fn group_pairs(
    gates: Seq<Option<Place>>,
    n_used: u32,
    keys: Seq<Place>,
    k: int,
) -> Seq<u32>
    decreases k,
{
    if k <= 0 {
        Seq::empty()
    } else {
        group_pairs(gates, n_used, keys, k - 1) + group_members(
            gates,
            n_used,
            keys[k - 1],
            gates.len() as int,
        )
    }
}

/// Slots of a batch grouped by expert: group `g` has the pairs from
/// `starts[g]` to `starts[g + 1]`, and its weights are those of the slot
/// `leaders[g]`.
pub struct Groups {
    pub keys: Vec<Place>,
    pub leaders: Vec<usize>,
    pub starts: Vec<u32>,
    pub pairs: Vec<u32>,
}

proof fn lemma_members_len(gates: Seq<Option<Place>>, n_used: u32, key: Place, n: int)
    requires
        0 <= n,
    ensures
        group_members(gates, n_used, key, n).len() <= n,
    decreases n,
{
    if n > 0 {
        lemma_members_len(gates, n_used, key, n - 1);
    }
}

/// Slots with a gate among the first `n`.
pub open spec fn live_slots(gates: Seq<Option<Place>>, n: int) -> nat
    decreases n,
{
    if n <= 0 {
        0
    } else {
        live_slots(gates, n - 1) + if gates[n - 1] is Some { 1nat } else { 0nat }
    }
}

/// Slots among the first `n` whose gate is one of the first `k` keys.
pub open spec fn keyed_slots(gates: Seq<Option<Place>>, keys: Seq<Place>, n: int) -> nat
    decreases n,
{
    if n <= 0 {
        0
    } else {
        keyed_slots(gates, keys, n - 1) + if gates[n - 1] is Some && keys.contains(gates[n - 1]->0) {
            1nat
        } else {
            0nat
        }
    }
}

proof fn lemma_keyed_push(gates: Seq<Option<Place>>, n_used: u32, keys: Seq<Place>, key: Place, n: int)
    requires
        0 <= n <= gates.len(),
        !keys.contains(key),
    ensures
        keyed_slots(gates, keys.push(key), n) == keyed_slots(gates, keys, n) + group_members(
            gates,
            n_used,
            key,
            n,
        ).len(),
    decreases n,
{
    if n > 0 {
        lemma_keyed_push(gates, n_used, keys, key, n - 1);
        if gates[n - 1] is Some {
            let p = gates[n - 1]->0;
            assert(keys.push(key).contains(p) <==> keys.contains(p) || p == key) by {
                if keys.contains(p) {
                    let i = choose|i: int| 0 <= i < keys.len() && keys[i] == p;
                    assert(keys.push(key)[i] == p);
                }
                if p == key {
                    assert(keys.push(key)[keys.len() as int] == p);
                }
            }
        }
    }
}

proof fn lemma_pairs_len(gates: Seq<Option<Place>>, n_used: u32, keys: Seq<Place>, k: int)
    requires
        0 <= k <= keys.len(),
        keys.no_duplicates(),
    ensures
        group_pairs(gates, n_used, keys, k).len() == keyed_slots(
            gates,
            keys.take(k),
            gates.len() as int,
        ),
    decreases k,
{
    let n = gates.len() as int;
    if k == 0 {
        lemma_keyed_empty(gates, n);
        assert(keys.take(0) =~= Seq::<Place>::empty());
    } else {
        lemma_pairs_len(gates, n_used, keys, k - 1);
        assert(keys.take(k) =~= keys.take(k - 1).push(keys[k - 1]));
        assert(!keys.take(k - 1).contains(keys[k - 1])) by {
            if keys.take(k - 1).contains(keys[k - 1]) {
                let h = keys.take(k - 1);
                let i = choose|i: int| 0 <= i < h.len() && h[i] == keys[k - 1];
                assert(keys[i] == keys[k - 1]);
            }
        }
        lemma_keyed_push(gates, n_used, keys.take(k - 1), keys[k - 1], n);
    }
}

proof fn lemma_keyed_empty(gates: Seq<Option<Place>>, n: int)
    ensures
        keyed_slots(gates, Seq::empty(), n) == 0,
    decreases n,
{
    if n > 0 {
        lemma_keyed_empty(gates, n - 1);
    }
}

proof fn lemma_keyed_bound(gates: Seq<Option<Place>>, keys: Seq<Place>, n: int)
    ensures
        keyed_slots(gates, keys, n) <= live_slots(gates, n),
        0 <= n ==> live_slots(gates, n) <= n,
    decreases n,
{
    if n > 0 {
        lemma_keyed_bound(gates, keys, n - 1);
    }
}

proof fn lemma_group_keys(gates: Seq<Option<Place>>, n: int)
    requires
        0 <= n <= gates.len(),
    ensures
        group_keys(gates, n).no_duplicates(),
        group_keys(gates, n).len() <= n,
        forall|i: int|
            0 <= i < n && (#[trigger] gates[i]) is Some ==> group_keys(gates, n).contains(
                gates[i]->0,
            ),
    decreases n,
{
    if n > 0 {
        lemma_group_keys(gates, n - 1);
        let h = group_keys(gates, n - 1);
        let g = group_keys(gates, n);
        assert forall|i: int| 0 <= i < n && (#[trigger] gates[i]) is Some implies g.contains(
            gates[i]->0,
        ) by {
            let p = gates[i]->0;
            if i < n - 1 || h.contains(p) {
                assert(h.contains(p));
                let k = choose|k: int| 0 <= k < h.len() && h[k] == p;
                assert(g[k] == p);
            } else {
                assert(g[h.len() as int] == p);
            }
        }
    }
}

proof fn lemma_all_keyed(gates: Seq<Option<Place>>, keys: Seq<Place>, n: int)
    requires
        0 <= n <= gates.len(),
        forall|i: int|
            0 <= i < n && (#[trigger] gates[i]) is Some ==> keys.contains(gates[i]->0),
    ensures
        keyed_slots(gates, keys, n) == live_slots(gates, n),
    decreases n,
{
    if n > 0 {
        lemma_all_keyed(gates, keys, n - 1);
    }
}

/// Grouping loses no slot and repeats none: each slot with a gate is listed
/// in the group of its gate, and the list has as many entries as there are
/// such slots.
pub proof fn grouping_is_a_partition(gates: Seq<Option<Place>>, n_used: u32, s: int)
    requires
        0 <= s < gates.len(),
        gates[s] is Some,
    ensures
        ({
            let n = gates.len() as int;
            let keys = group_keys(gates, n);
            &&& keys.contains(gates[s]->0)
            &&& group_members(gates, n_used, gates[s]->0, n).contains(packed(s, n_used))
            &&& group_pairs(gates, n_used, keys, keys.len() as int).len() == live_slots(gates, n)
        }),
{
    let n = gates.len() as int;
    let keys = group_keys(gates, n);
    lemma_group_keys(gates, n);
    lemma_all_keyed(gates, keys, n);
    lemma_pairs_len(gates, n_used, keys, keys.len() as int);
    assert(keys.take(keys.len() as int) =~= keys);
    lemma_member_listed(gates, n_used, gates[s]->0, s, n);
}

proof fn lemma_member_listed(gates: Seq<Option<Place>>, n_used: u32, key: Place, s: int, n: int)
    requires
        0 <= s < n <= gates.len(),
        gates[s] == Some(key),
    ensures
        group_members(gates, n_used, key, n).contains(packed(s, n_used)),
    decreases n,
{
    let m = group_members(gates, n_used, key, n);
    if s == n - 1 {
        assert(m[m.len() - 1] == packed(s, n_used));
    } else {
        lemma_member_listed(gates, n_used, key, s, n - 1);
        let h = group_members(gates, n_used, key, n - 1);
        let k = choose|k: int| 0 <= k < h.len() && h[k] == packed(s, n_used);
        assert(m[k] == packed(s, n_used));
    }
}

/// Group a batch's slots by the place of their gate weights.
pub fn group_slots(gates: &Vec<Option<Place>>, n_used: u32) -> (g: Groups)
    requires
        0 < n_used <= 16,
        gates@.len() <= 0x0fff_ffff,
    ensures
        g.keys@ == group_keys(gates@, gates@.len() as int),
        g.leaders@.len() == g.keys@.len(),
        forall|k: int|
            0 <= k < g.keys@.len() ==> {
                &&& (#[trigger] g.leaders@[k]) < gates@.len()
                &&& gates@[g.leaders@[k] as int] == Some(g.keys@[k])
                &&& forall|i: int| 0 <= i < g.leaders@[k] ==> gates@[i] != Some(g.keys@[k])
            },
        g.starts@.len() == g.keys@.len() + 1,
        forall|k: int|
            0 <= k <= g.keys@.len() ==> #[trigger] g.starts@[k] == group_pairs(
                gates@,
                n_used,
                g.keys@,
                k,
            ).len(),
        g.pairs@ == group_pairs(gates@, n_used, g.keys@, g.keys@.len() as int),
{
    let mut keys: Vec<Place> = Vec::new();
    let mut leaders: Vec<usize> = Vec::new();
    let mut i: usize = 0;
    while i < gates.len()
        invariant
            i <= gates@.len(),
            keys@ == group_keys(gates@, i as int),
            leaders@.len() == keys@.len(),
            forall|x: int|
                0 <= x < i && (#[trigger] gates@[x]) is Some ==> keys@.contains(gates@[x]->0),
            forall|k: int|
                0 <= k < keys@.len() ==> {
                    &&& (#[trigger] leaders@[k]) < i
                    &&& gates@[leaders@[k] as int] == Some(keys@[k])
                    &&& forall|x: int| 0 <= x < leaders@[k] ==> gates@[x] != Some(keys@[k])
                },
        decreases gates@.len() - i,
    {
        let ghost was = keys@;
        match gates[i] {
            Some(p) => {
                if !has_place(&keys, p) {
                    proof {
                        assert forall|x: int| 0 <= x < i implies gates@[x] != Some(p) by {
                            if gates@[x] == Some(p) {
                                assert(keys@.contains(gates@[x]->0));
                            }
                        }
                    }
                    keys.push(p);
                    leaders.push(i);
                }
            },
            None => {},
        }
        proof {
            lemma_group_keys(gates@, i + 1);
        }
        i = i + 1;
    }
    let n: usize = gates.len();
    let mut starts: Vec<u32> = Vec::new();
    let mut pairs: Vec<u32> = Vec::new();
    starts.push(0);
    let mut k: usize = 0;
    proof {
        lemma_group_keys(gates@, n as int);
    }
    while k < keys.len()
        invariant
            k <= keys@.len(),
            0 < n_used <= 16,
            n == gates@.len(),
            n <= 0x0fff_ffff,
            keys@ == group_keys(gates@, n as int),
            keys@.no_duplicates(),
            starts@.len() == k + 1,
            pairs@ == group_pairs(gates@, n_used, keys@, k as int),
            forall|x: int|
                0 <= x <= k ==> #[trigger] starts@[x] == group_pairs(
                    gates@,
                    n_used,
                    keys@,
                    x,
                ).len(),
        decreases keys@.len() - k,
    {
        let key: Place = keys[k];
        let ghost head = pairs@;
        let mut s: usize = 0;
        assert(head + Seq::<u32>::empty() =~= head);
        while s < n
            invariant
                s <= n,
                0 < n_used <= 16,
                n == gates@.len(),
                n <= 0x0fff_ffff,
                pairs@ == head + group_members(gates@, n_used, key, s as int),
            decreases n - s,
        {
            let hit: bool = match gates[s] {
                Some(p) => p == key,
                None => false,
            };
            if hit {
                let tok: u32 = (s / n_used as usize) as u32;
                let slot: u32 = (s % n_used as usize) as u32;
                proof {
                    assert(s as int / n_used as int <= s) by (nonlinear_arith)
                        requires
                            n_used > 0,
                            s >= 0,
                    ;
                }
                pairs.push(tok * 16 + slot);
                assert(pairs@ =~= head + group_members(gates@, n_used, key, s + 1));
            }
            s = s + 1;
        }
        proof {
            lemma_pairs_len(gates@, n_used, keys@, k + 1);
            lemma_keyed_bound(gates@, keys@.take(k + 1), n as int);
        }
        starts.push(pairs.len() as u32);
        k = k + 1;
    }
    Groups { keys, leaders, starts, pairs }
}

fn has_place(v: &Vec<Place>, p: Place) -> (r: bool)
    ensures
        r == v@.contains(p),
{
    let mut i: usize = 0;
    while i < v.len()
        invariant
            i <= v@.len(),
            forall|k: int| 0 <= k < i ==> v@[k] != p,
        decreases v@.len() - i,
    {
        if v[i] == p {
            assert(v@.contains(p));
            return true;
        }
        i = i + 1;
    }
    false
}

/// What becomes of a slab that came from the host or the disk.
#[derive(Clone, Copy, Debug, PartialEq, Eq, Structural)]
pub enum Landing {
    /// Kernels read it where it is.
    Host,
    /// A worker reads it; it never crosses to the card.
    Stay,
    /// The card has it.
    Slot(u32),
    /// The card has taken this slot for it: copy it there.
    Fill(u32),
    /// Copy it into the staging arena.
    Stage(usize),
}

impl Landing {
    /// Where kernels then find it.
    pub open spec fn found(self) -> Option<Place> {
        match self {
            Landing::Host => Some(Place::Host),
            Landing::Stay => None,
            Landing::Slot(slot) => Some(Place::Slot(slot)),
            Landing::Fill(slot) => Some(Place::Slot(slot)),
            Landing::Stage(base) => Some(Place::Stage(base)),
        }
    }

    /// Where kernels then find it.
    pub fn place(self) -> (p: Option<Place>)
        ensures
            p == self.found(),
    {
        match self {
            Landing::Host => Some(Place::Host),
            Landing::Stay => None,
            Landing::Slot(slot) => Some(Place::Slot(slot)),
            Landing::Fill(slot) => Some(Place::Slot(slot)),
            Landing::Stage(base) => Some(Place::Stage(base)),
        }
    }
}

/// What becomes of the slab at `off`, whose place in the staging arena is
/// `base`. With shared memory kernels read it in place; slabs of the workers
/// stay; the rest go to the card's cache if they are hot enough, and else to
/// the arena.
pub fn land(
    dev: &mut DeviceSlabCache,
    off: u64,
    base: usize,
    unified: bool,
    staying: &Vec<u64>,
    in_use: &Vec<u64>,
) -> (r: Landing)
    requires
        old(dev).wf(),
        off != dev_cache::NO_OFFSET,
    ensures
        final(dev).wf(),
        final(dev).same_rest(old(dev)),
        final(dev).next_group == old(dev).next_group,
        forall|o: u64| #[trigger]
            in_use@.contains(o) && old(dev).map@.contains_key(o) ==> final(dev).map@.contains_key(o)
                && final(dev).map@[o] == old(dev).map@[o],
        ({
            let p = old(dev).state();
            let heat = dev_cache::heat_of(old(dev).touch@, off);
            let cold = dev_cache::coldest(p.meta, in_use@, true, p.meta.len() as int);
            if unified {
                r == Landing::Host && final(dev).state() == p
            } else if staying@.contains(off) {
                r == Landing::Stay && final(dev).state() == p
            } else if p.map.contains_key(off) {
                r == Landing::Slot(p.map[off]) && final(dev).state() == p
            } else if p.free.len() > 0 {
                &&& r == Landing::Fill(p.free.last())
                &&& final(dev).state() == dev_cache::placed(p, off, heat, dev_cache::NO_GROUP)
            } else if cold is Some && p.meta[cold->0].freq < heat {
                &&& r == Landing::Fill(cold->0 as u32)
                &&& final(dev).state() == dev_cache::placed(
                    dev_cache::freed(p, cold->0),
                    off,
                    heat,
                    dev_cache::NO_GROUP,
                )
            } else {
                r == Landing::Stage(base) && final(dev).state() == p
            }
        }),
{
    if unified {
        return Landing::Host;
    }
    if dev_cache::holds(staying, off) {
        return Landing::Stay;
    }
    match dev.maybe_insert(off, in_use) {
        Admission::Resident(slot) => Landing::Slot(slot),
        Admission::Admitted(slot) => Landing::Fill(slot),
        Admission::Declined => Landing::Stage(base),
    }
}

} // verus!
