//! VRAM slab cache: a uniform-slot pool that keeps a stable hot set.
//!
//! The pool is smaller than one token's working set, so recency would evict
//! everything every token. Instead every requested offset carries a global
//! touch count, and a slab enters the pool only when it is strictly hotter
//! than the coldest slab it would replace. Slabs admitted together as a
//! gate/up/down triple share a group and leave together.

use std::collections::HashMap;
use vstd::prelude::*;

verus! {

broadcast use vstd::std_specs::hash::group_hash_axioms;

/// Bytes kept behind the last slab so that a row read which runs past its
/// end stays inside the allocation.
pub const SLAB_SLACK: usize = 256;

/// Offset stored in a free slot.
pub const NO_OFFSET: u64 = 0xffff_ffff_ffff_ffff;

/// Group of a slab that was admitted alone.
pub const NO_GROUP: u32 = 0xffff_ffff;

/// What one pool slot holds: the touch count at its last use, the file
/// offset of the slab, and the group it was admitted with.
#[derive(Clone, Copy, Debug, PartialEq, Eq, Structural)]
pub struct SlotMeta {
    pub freq: u64,
    pub offset: u64,
    pub group: u32,
}

/// A slot that holds nothing.
pub open spec fn free_meta() -> SlotMeta {
    SlotMeta { freq: 0, offset: NO_OFFSET, group: NO_GROUP }
}

pub open spec fn is_occupied(m: SlotMeta) -> bool {
    m.offset != NO_OFFSET
}

/// An occupied slot admitted alone.
pub open spec fn is_loose(m: SlotMeta) -> bool {
    m.offset != NO_OFFSET && m.group == NO_GROUP
}

/// Number of occupied slots.
pub open spec fn occupied(meta: Seq<SlotMeta>) -> nat
    decreases meta.len(),
{
    if meta.len() == 0 {
        0
    } else {
        occupied(meta.drop_last()) + if is_occupied(meta.last()) { 1nat } else { 0nat }
    }
}

/// Number of slots admitted alone.
pub open spec fn loose(meta: Seq<SlotMeta>) -> nat
    decreases meta.len(),
{
    if meta.len() == 0 {
        0
    } else {
        loose(meta.drop_last()) + if is_loose(meta.last()) { 1nat } else { 0nat }
    }
}

/// The slot bookkeeping, apart from the touch counts.
#[verifier::ext_equal]
pub struct PoolState {
    pub meta: Seq<SlotMeta>,
    pub map: Map<u64, u32>,
    pub free: Seq<u32>,
    pub ungrouped: int,
}

/// `p` with `slot` given back; a slot that is already free stays as it is.
pub open spec fn freed(p: PoolState, slot: int) -> PoolState {
    if p.meta[slot].offset == NO_OFFSET {
        p
    } else {
        PoolState {
            meta: p.meta.update(slot, free_meta()),
            map: p.map.remove(p.meta[slot].offset),
            free: p.free.push(slot as u32),
            ungrouped: if p.meta[slot].group == NO_GROUP && p.ungrouped > 0 {
                p.ungrouped - 1
            } else {
                p.ungrouped
            },
        }
    }
}

/// `p` with every slot below `n` that belongs to group `g` given back, in
/// ascending slot order.
pub open spec fn group_freed(p: PoolState, g: u32, n: int) -> PoolState
    decreases n,
{
    if n <= 0 {
        p
    } else if p.meta[n - 1].group == g {
        freed(group_freed(p, g, n - 1), n - 1)
    } else {
        group_freed(p, g, n - 1)
    }
}

/// `p` with `slot` and every slot of its group given back.
pub open spec fn unit_freed(p: PoolState, slot: int) -> PoolState {
    if p.meta[slot].group == NO_GROUP {
        freed(p, slot)
    } else {
        group_freed(p, p.meta[slot].group, p.meta.len() as int)
    }
}

/// True when giving up slot `i` gives up something in `keep` too: the slot
/// itself, or a member of its group.
pub open spec fn unit_kept(meta: Seq<SlotMeta>, i: int, keep: Seq<u64>) -> bool {
    ||| keep.contains(meta[i].offset)
    ||| meta[i].group != NO_GROUP && exists|j: int|
        0 <= j < meta.len() && (#[trigger] meta[j]).group == meta[i].group && keep.contains(
            meta[j].offset,
        )
}

/// True of a slot that may be given up: it holds a slab, nothing that leaves
/// with it is to be kept and, where `alone` asks for it, it belongs to no
/// group.
pub open spec fn evictable(meta: Seq<SlotMeta>, i: int, keep: Seq<u64>, alone: bool) -> bool {
    meta[i].offset != NO_OFFSET && (alone ==> meta[i].group == NO_GROUP) && !unit_kept(
        meta,
        i,
        keep,
    )
}

/// The first slot below `n` with the lowest touch count among those that
/// may be given up.
pub open spec fn coldest(meta: Seq<SlotMeta>, keep: Seq<u64>, alone: bool, n: int) -> Option<int>
    decreases n,
{
    if n <= 0 {
        None
    } else {
        let before = coldest(meta, keep, alone, n - 1);
        if evictable(meta, n - 1, keep, alone) && (before matches Some(b) ==> meta[n - 1].freq
            < meta[b].freq) {
            Some(n - 1)
        } else {
            before
        }
    }
}

/// Sum of the touch counts of the slots below `n` in group `g`.
pub open spec fn group_sum(meta: Seq<SlotMeta>, g: u32, n: int) -> nat
    decreases n,
{
    if n <= 0 {
        0
    } else {
        group_sum(meta, g, n - 1) + if meta[n - 1].group == g { meta[n - 1].freq as nat } else { 0nat }
    }
}

/// Heat of what leaves when `slot` is given up: the slab alone, or its
/// whole group.
pub open spec fn unit_heat(meta: Seq<SlotMeta>, slot: int) -> nat {
    if meta[slot].group == NO_GROUP {
        meta[slot].freq as nat
    } else {
        group_sum(meta, meta[slot].group, meta.len() as int)
    }
}

/// Give up the coldest unit, again and again, until `need` slots are free.
/// `None` when nothing may be given up any more or the coldest unit is at
/// least as hot as `heat`.
pub open spec fn make_room(p: PoolState, need: nat, heat: nat, keep: Seq<u64>) -> Option<PoolState>
    decreases occupied(p.meta),
{
    proof {
        if let Some(v) = coldest(p.meta, keep, false, p.meta.len() as int) {
            lemma_coldest(p.meta, keep, false, p.meta.len() as int);
            lemma_unit_freed_shrinks(p, v);
        }
    }
    if p.free.len() >= need {
        Some(p)
    } else {
        match coldest(p.meta, keep, false, p.meta.len() as int) {
            None => None,
            Some(v) => if unit_heat(p.meta, v) >= heat {
                None
            } else {
                make_room(unit_freed(p, v), need, heat, keep)
            },
        }
    }
}

/// `p` with each of `vs` given up in turn, together with its group.
pub open spec fn units_freed(p: PoolState, vs: Seq<u32>) -> PoolState
    decreases vs.len(),
{
    if vs.len() == 0 {
        p
    } else {
        unit_freed(units_freed(p, vs.drop_last()), vs.last() as int)
    }
}

/// `p` with the slot on top of the free list taken for the slab at
/// `offset`.
pub open spec fn placed(p: PoolState, offset: u64, freq: u64, group: u32) -> PoolState {
    PoolState {
        meta: p.meta.update(p.free.last() as int, SlotMeta { freq, offset, group }),
        map: p.map.insert(offset, p.free.last()),
        free: p.free.drop_last(),
        ungrouped: if group == NO_GROUP {
            p.ungrouped + 1
        } else {
            p.ungrouped
        },
    }
}

/// `p` after the first `n` of `offs` were placed as members of `group`;
/// those that are resident stay where they are.
pub open spec fn parts_placed(
    p: PoolState,
    touch: Map<u64, (u64, u64)>,
    offs: Seq<u64>,
    group: u32,
    n: int,
) -> PoolState
    decreases n,
{
    if n <= 0 {
        p
    } else {
        let q = parts_placed(p, touch, offs, group, n - 1);
        if q.map.contains_key(offs[n - 1]) {
            q
        } else {
            placed(q, offs[n - 1], heat_of(touch, offs[n - 1]), group)
        }
    }
}

/// Touch count of an offset; zero when it was never requested.
pub open spec fn heat_of(touch: Map<u64, (u64, u64)>, offset: u64) -> u64 {
    if touch.contains_key(offset) {
        touch[offset].0
    } else {
        0
    }
}

/// `touch` after one more request for `offset`; the length is remembered
/// from the first request.
pub open spec fn touched(touch: Map<u64, (u64, u64)>, offset: u64, len: u64) -> Map<
    u64,
    (u64, u64),
> {
    if touch.contains_key(offset) {
        touch.insert(offset, ((touch[offset].0 + 1) as u64, touch[offset].1))
    } else {
        touch.insert(offset, (1, len))
    }
}

proof fn lemma_occupied_update(meta: Seq<SlotMeta>, i: int, m: SlotMeta)
    requires
        0 <= i < meta.len(),
    ensures
        occupied(meta.update(i, m)) == occupied(meta) - (if is_occupied(meta[i]) { 1int } else { 0 })
            + (if is_occupied(m) { 1int } else { 0 }),
        occupied(meta) <= meta.len(),
    decreases meta.len(),
{
    let u = meta.update(i, m);
    if i == meta.len() - 1 {
        assert(u.drop_last() =~= meta.drop_last());
        lemma_occupied_bound(meta);
    } else {
        assert(u.drop_last() =~= meta.drop_last().update(i, m));
        lemma_occupied_update(meta.drop_last(), i, m);
    }
}

proof fn lemma_occupied_bound(meta: Seq<SlotMeta>)
    ensures
        occupied(meta) <= meta.len(),
    decreases meta.len(),
{
    if meta.len() > 0 {
        lemma_occupied_bound(meta.drop_last());
    }
}

proof fn lemma_loose_update(meta: Seq<SlotMeta>, i: int, m: SlotMeta)
    requires
        0 <= i < meta.len(),
    ensures
        loose(meta.update(i, m)) == loose(meta) - (if is_loose(meta[i]) { 1int } else { 0 }) + (
        if is_loose(m) { 1int } else { 0 }),
    decreases meta.len(),
{
    let u = meta.update(i, m);
    if i == meta.len() - 1 {
        assert(u.drop_last() =~= meta.drop_last());
    } else {
        assert(u.drop_last() =~= meta.drop_last().update(i, m));
        lemma_loose_update(meta.drop_last(), i, m);
    }
}

proof fn lemma_loose_room(meta: Seq<SlotMeta>, i: int)
    requires
        0 <= i < meta.len(),
        !is_loose(meta[i]),
    ensures
        loose(meta) < meta.len(),
    decreases meta.len(),
{
    if i < meta.len() - 1 {
        lemma_loose_room(meta.drop_last(), i);
    } else {
        lemma_loose_bound(meta.drop_last());
    }
}

proof fn lemma_none_loose(meta: Seq<SlotMeta>)
    requires
        forall|i: int| 0 <= i < meta.len() ==> !is_loose(#[trigger] meta[i]),
    ensures
        loose(meta) == 0,
    decreases meta.len(),
{
    if meta.len() > 0 {
        lemma_none_loose(meta.drop_last());
    }
}

proof fn lemma_loose_bound(meta: Seq<SlotMeta>)
    ensures
        loose(meta) <= meta.len(),
    decreases meta.len(),
{
    if meta.len() > 0 {
        lemma_loose_bound(meta.drop_last());
    }
}

/// The chosen slot may be given up, and none that may be is colder; of
/// equally cold ones it is the first.
pub proof fn lemma_coldest(meta: Seq<SlotMeta>, keep: Seq<u64>, alone: bool, n: int)
    requires
        n <= meta.len(),
    ensures
        match coldest(meta, keep, alone, n) {
            Some(v) => {
                &&& 0 <= v < n
                &&& evictable(meta, v, keep, alone)
                &&& forall|j: int|
                    0 <= j < n && #[trigger] evictable(meta, j, keep, alone) ==> meta[v].freq
                        <= meta[j].freq
                &&& forall|j: int|
                    0 <= j < v && #[trigger] evictable(meta, j, keep, alone) ==> meta[v].freq
                        < meta[j].freq
            },
            None => forall|j: int| 0 <= j < n ==> !#[trigger] evictable(meta, j, keep, alone),
        },
    decreases n,
{
    if n > 0 {
        lemma_coldest(meta, keep, alone, n - 1);
    }
}

proof fn lemma_group_freed(p: PoolState, g: u32, n: int)
    requires
        0 <= n <= p.meta.len(),
    ensures
        group_freed(p, g, n).meta.len() == p.meta.len(),
        forall|j: int|
            n <= j < p.meta.len() ==> #[trigger] group_freed(p, g, n).meta[j] == p.meta[j],
        occupied(group_freed(p, g, n).meta) <= occupied(p.meta),
        forall|v: int|
            0 <= v < n && is_occupied(#[trigger] p.meta[v]) && p.meta[v].group == g ==> occupied(
                group_freed(p, g, n).meta,
            ) < occupied(p.meta),
    decreases n,
{
    if n > 0 {
        lemma_group_freed(p, g, n - 1);
        let q = group_freed(p, g, n - 1);
        if p.meta[n - 1].group == g {
            lemma_occupied_update(q.meta, n - 1, free_meta());
        }
    }
}

pub proof fn lemma_unit_freed_shrinks(p: PoolState, v: int)
    requires
        0 <= v < p.meta.len(),
        is_occupied(p.meta[v]),
    ensures
        occupied(unit_freed(p, v).meta) < occupied(p.meta),
{
    if p.meta[v].group == NO_GROUP {
        lemma_occupied_update(p.meta, v, free_meta());
    } else {
        lemma_group_freed(p, p.meta[v].group, p.meta.len() as int);
    }
}

/// Slot bookkeeping that hangs together: the map and the occupied slots
/// agree, the free list holds every free slot once, and the count of slabs
/// admitted alone is exact.
pub open spec fn pool_wf(p: PoolState) -> bool {
    &&& p.meta.len() <= u32::MAX
    &&& forall|off: u64| #[trigger]
        p.map.contains_key(off) ==> off != NO_OFFSET && p.map[off] < p.meta.len()
            && p.meta[p.map[off] as int].offset == off
    &&& forall|i: int|
        0 <= i < p.meta.len() && (#[trigger] p.meta[i]).offset != NO_OFFSET ==> p.map.contains_key(
            p.meta[i].offset,
        ) && p.map[p.meta[i].offset] == i
    &&& forall|i: int|
        0 <= i < p.free.len() ==> (#[trigger] p.free[i]) < p.meta.len() && p.meta[p.free[i] as int]
            == free_meta()
    &&& forall|i: int|
        0 <= i < p.meta.len() && (#[trigger] p.meta[i]).offset == NO_OFFSET ==> p.meta[i]
            == free_meta() && p.free.contains(i as u32)
    &&& p.free.no_duplicates()
    &&& p.ungrouped == loose(p.meta)
}

proof fn lemma_freed_wf(p: PoolState, slot: int)
    requires
        pool_wf(p),
        0 <= slot < p.meta.len(),
    ensures
        pool_wf(freed(p, slot)),
{
    if p.meta[slot].offset != NO_OFFSET {
        let q = freed(p, slot);
        lemma_loose_update(p.meta, slot, free_meta());
        assert forall|i: int| 0 <= i < q.free.len() implies (#[trigger] q.free[i]) < q.meta.len()
            && q.meta[q.free[i] as int] == free_meta() by {
            if i < p.free.len() {
                assert(q.free[i] == p.free[i]);
            }
        }
        assert(!p.free.contains(slot as u32)) by {
            if p.free.contains(slot as u32) {
                let k = choose|k: int| 0 <= k < p.free.len() && p.free[k] == slot as u32;
                assert(p.meta[p.free[k] as int] == free_meta());
            }
        }
        assert(q.free.no_duplicates());
        assert forall|i: int| 0 <= i < q.meta.len() && (#[trigger] q.meta[i]).offset
            != NO_OFFSET implies q.map.contains_key(q.meta[i].offset) && q.map[q.meta[i].offset]
            == i by {
            assert(p.meta[i] == q.meta[i]);
            assert(p.map[p.meta[slot].offset] == slot);
        }
        assert forall|off: u64| #[trigger] q.map.contains_key(off) implies off != NO_OFFSET
            && q.map[off] < q.meta.len() && q.meta[q.map[off] as int].offset == off by {
            assert(p.map.contains_key(off));
        }
        assert forall|i: int| 0 <= i < q.meta.len() && (#[trigger] q.meta[i]).offset
            == NO_OFFSET implies q.meta[i] == free_meta() && q.free.contains(i as u32) by {
            if i == slot {
                assert(q.free[p.free.len() as int] == i as u32);
            } else {
                assert(p.meta[i] == q.meta[i]);
                let k = choose|k: int| 0 <= k < p.free.len() && p.free[k] == i as u32;
                assert(q.free[k] == i as u32);
            }
        }
        assert(is_loose(p.meta[slot]) ==> loose(p.meta) > 0);
    }
}

proof fn lemma_placed_wf(p: PoolState, offset: u64, freq: u64, group: u32)
    requires
        pool_wf(p),
        p.free.len() > 0,
        offset != NO_OFFSET,
        !p.map.contains_key(offset),
    ensures
        pool_wf(placed(p, offset, freq, group)),
        p.free.last() < p.meta.len(),
        p.meta[p.free.last() as int] == free_meta(),
        p.ungrouped < p.meta.len(),
{
    let q = placed(p, offset, freq, group);
    let s = p.free.last() as int;
    assert(p.free[p.free.len() - 1] == s);
    lemma_loose_room(p.meta, s);
    lemma_loose_update(p.meta, s, SlotMeta { freq, offset, group });
    assert forall|i: int| 0 <= i < q.free.len() implies (#[trigger] q.free[i]) < q.meta.len()
        && q.meta[q.free[i] as int] == free_meta() by {
        assert(q.free[i] == p.free[i]);
        assert(p.free[i] != s as u32);
    }
    assert forall|off: u64| #[trigger] q.map.contains_key(off) implies off != NO_OFFSET
        && q.map[off] < q.meta.len() && q.meta[q.map[off] as int].offset == off by {
        if off != offset {
            assert(p.map.contains_key(off));
            assert(p.map[off] != s);
        }
    }
    assert forall|i: int| 0 <= i < q.meta.len() && (#[trigger] q.meta[i]).offset
        != NO_OFFSET implies q.map.contains_key(q.meta[i].offset) && q.map[q.meta[i].offset] == i by {
        if i != s {
            assert(p.meta[i] == q.meta[i]);
        }
    }
    assert forall|i: int| 0 <= i < q.meta.len() && (#[trigger] q.meta[i]).offset
        == NO_OFFSET implies q.meta[i] == free_meta() && q.free.contains(i as u32) by {
        assert(i != s);
        assert(p.meta[i] == q.meta[i]);
        let k = choose|k: int| 0 <= k < p.free.len() && p.free[k] == i as u32;
        assert(k != p.free.len() - 1);
        assert(q.free[k] == i as u32);
    }
    assert(q.free.no_duplicates());
}

proof fn lemma_group_freed_wf(p: PoolState, g: u32, n: int)
    requires
        pool_wf(p),
        0 <= n <= p.meta.len(),
    ensures
        pool_wf(group_freed(p, g, n)),
        group_freed(p, g, n).meta.len() == p.meta.len(),
    decreases n,
{
    if n > 0 {
        lemma_group_freed_wf(p, g, n - 1);
        lemma_group_freed(p, g, n - 1);
        if p.meta[n - 1].group == g {
            lemma_freed_wf(group_freed(p, g, n - 1), n - 1);
        }
    }
}

proof fn lemma_unit_freed_wf(p: PoolState, slot: int)
    requires
        pool_wf(p),
        0 <= slot < p.meta.len(),
    ensures
        pool_wf(unit_freed(p, slot)),
        unit_freed(p, slot).meta.len() == p.meta.len(),
{
    if p.meta[slot].group == NO_GROUP {
        lemma_freed_wf(p, slot);
    } else {
        lemma_group_freed_wf(p, p.meta[slot].group, p.meta.len() as int);
    }
}

/// Giving up a unit that holds nothing to be kept leaves what is to be kept
/// where it is.
proof fn lemma_unit_freed_keeps(p: PoolState, slot: int, keep: Seq<u64>)
    requires
        pool_wf(p),
        0 <= slot < p.meta.len(),
        evictable(p.meta, slot, keep, false),
    ensures
        keeps(p, unit_freed(p, slot), keep),
{
    let q = unit_freed(p, slot);
    lemma_unit_freed_wf(p, slot);
    let g = p.meta[slot].group;
    if g != NO_GROUP {
        lemma_group_slots(p, g, p.meta.len() as int);
    }
    assert forall|off: u64| #[trigger] keep.contains(off) implies p.map.contains_key(off)
        == q.map.contains_key(off) && (p.map.contains_key(off) ==> p.map[off] == q.map[off]
        && p.meta[p.map[off] as int] == q.meta[p.map[off] as int]) by {
        if p.map.contains_key(off) {
            let s = p.map[off] as int;
            assert(p.meta[s].offset == off);
            assert(q.meta[s] == p.meta[s]);
            assert(q.map.contains_key(q.meta[s].offset));
        }
        if q.map.contains_key(off) {
            let s = q.map[off] as int;
            assert(q.meta[s].offset == off);
            assert(p.meta[s] == q.meta[s]);
            assert(p.map.contains_key(p.meta[s].offset));
        }
    }
}

/// Of the offsets in `keep`, the same are resident in `p` and in `q`, in the
/// same slots.
pub open spec fn keeps(p: PoolState, q: PoolState, keep: Seq<u64>) -> bool {
    forall|off: u64| #[trigger]
        keep.contains(off) ==> p.map.contains_key(off) == q.map.contains_key(off) && (
        p.map.contains_key(off) ==> p.map[off] == q.map[off] && p.meta[p.map[off] as int]
            == q.meta[p.map[off] as int])
}

/// Making room keeps the bookkeeping whole, frees as many slots as asked
/// for and leaves what is to be kept where it is.
pub proof fn room_spares_what_is_kept(p: PoolState, need: nat, heat: nat, keep: Seq<u64>)
    requires
        pool_wf(p),
    ensures
        make_room(p, need, heat, keep) matches Some(q) ==> pool_wf(q) && q.free.len() >= need
            && q.meta.len() == p.meta.len() && keeps(p, q, keep),
    decreases occupied(p.meta),
{
    let n = p.meta.len() as int;
    lemma_coldest(p.meta, keep, false, n);
    if p.free.len() < need {
        if let Some(v) = coldest(p.meta, keep, false, n) {
            if unit_heat(p.meta, v) < heat {
                lemma_unit_freed_shrinks(p, v);
                lemma_unit_freed_wf(p, v);
                lemma_unit_freed_keeps(p, v, keep);
                room_spares_what_is_kept(unit_freed(p, v), need, heat, keep);
            }
        }
    }
}

/// Whoever makes way for a unit of heat `heat` is colder than it.
pub proof fn only_colder_units_make_way(p: PoolState, need: nat, heat: nat, keep: Seq<u64>)
    requires
        pool_wf(p),
        p.free.len() < need,
        make_room(p, need, heat, keep) is Some,
    ensures
        coldest(p.meta, keep, false, p.meta.len() as int) matches Some(v) && unit_heat(p.meta, v)
            < heat,
{
}

proof fn lemma_parts_placed(
    p: PoolState,
    touch: Map<u64, (u64, u64)>,
    offs: Seq<u64>,
    group: u32,
    n: int,
)
    requires
        pool_wf(p),
        0 <= n <= offs.len(),
        p.free.len() >= missing_upto(p.map, offs, n),
        forall|i: int| 0 <= i < offs.len() ==> offs[i] != NO_OFFSET,
    ensures
        ({
            let q = parts_placed(p, touch, offs, group, n);
            &&& pool_wf(q)
            &&& q.meta.len() == p.meta.len()
            &&& q.free.len() == p.free.len() - missing_upto(p.map, offs, n)
            &&& forall|off: u64| #[trigger]
                q.map.contains_key(off) <==> p.map.contains_key(off) || exists|j: int|
                    0 <= j < n && offs[j] == off
            &&& forall|off: u64| #[trigger]
                p.map.contains_key(off) ==> q.map[off] == p.map[off] && q.meta[p.map[off] as int]
                    == p.meta[p.map[off] as int]
            &&& group != NO_GROUP ==> q.ungrouped == p.ungrouped
        }),
    decreases n,
{
    if n > 0 {
        lemma_parts_placed(p, touch, offs, group, n - 1);
        let q = parts_placed(p, touch, offs, group, n - 1);
        let off = offs[n - 1];
        let t = parts_placed(p, touch, offs, group, n);
        if is_missing(p.map, offs, n - 1) {
            assert(!q.map.contains_key(off));
            lemma_placed_wf(q, off, heat_of(touch, off), group);
            assert forall|o: u64| #[trigger] p.map.contains_key(o) implies t.map[o] == p.map[o]
                && t.meta[p.map[o] as int] == p.meta[p.map[o] as int] by {
                assert(q.map.contains_key(o));
                assert(o != off);
                assert(q.meta[q.map[o] as int].offset == o);
            }
        } else {
            assert(q.map.contains_key(off));
        }
        assert forall|o: u64| #[trigger] t.map.contains_key(o) <==> p.map.contains_key(o) || exists|
            j: int,
        |
            0 <= j < n && offs[j] == o by {
            if o == off {
                assert(offs[n - 1] == o);
            }
            if q.map.contains_key(o) && !p.map.contains_key(o) {
                let j = choose|j: int| 0 <= j < n - 1 && offs[j] == o;
                assert(0 <= j < n && offs[j] == o);
            }
        }
    }
}

/// True when `v` holds `x`.
pub fn holds(v: &Vec<u64>, x: u64) -> (r: bool)
    ensures
        r == v@.contains(x),
{
    let mut i: usize = 0;
    while i < v.len()
        invariant
            i <= v@.len(),
            forall|j: int| 0 <= j < i ==> v@[j] != x,
        decreases v@.len() - i,
    {
        if v[i] == x {
            assert(v@.contains(x));
            return true;
        }
        i = i + 1;
    }
    false
}

/// Where a slab goes when the pool is asked to take it.
#[derive(Clone, Copy, Debug, PartialEq, Eq, Structural)]
pub enum Admission {
    /// Already in this slot.
    Resident(u32),
    /// This slot was taken for it: its bytes are to be written there.
    Admitted(u32),
    /// Not worth a slot: stream it.
    Declined,
}

/// Where a triple goes when the pool is asked to take it as one unit.
#[derive(Clone, Copy, Debug, PartialEq, Eq)]
pub enum TripleAdmission {
    /// The slot of each part. Bytes are to be written for the parts that
    /// are marked fresh; the others were resident, or repeat an earlier
    /// part.
    Admitted { slots: [u32; 3], fresh: [bool; 3] },
    /// Not hot enough, or nothing may be given up: nothing changed.
    Declined,
}

/// Slot bookkeeping of the VRAM pool.
pub struct DeviceSlabCache {
    pub slab_bytes: usize,
    pub pool_len: usize,
    pub map: HashMap<u64, u32>,
    pub meta: Vec<SlotMeta>,
    pub free_list: Vec<u32>,
    pub ungrouped: u32,
    pub touch: HashMap<u64, (u64, u64)>,
    pub next_group: u32,
    pub hits: u64,
    pub misses: u64,
}

impl DeviceSlabCache {
    pub open spec fn state(&self) -> PoolState {
        PoolState {
            meta: self.meta@,
            map: self.map@,
            free: self.free_list@,
            ungrouped: self.ungrouped as int,
        }
    }

    pub open spec fn wf(&self) -> bool {
        &&& pool_wf(self.state())
        &&& 1 <= self.next_group < NO_GROUP
        &&& self.meta@.len() * self.slab_bytes + SLAB_SLACK == self.pool_len
    }

    /// Everything but the slot bookkeeping is as in `o`.
    pub open spec fn same_rest(&self, o: &DeviceSlabCache) -> bool {
        &&& self.slab_bytes == o.slab_bytes
        &&& self.pool_len == o.pool_len
        &&& self.touch@ == o.touch@
        &&& self.hits == o.hits
        &&& self.misses == o.misses
    }

    /// Slots that a budget buys: at least one.
    pub open spec fn slots_for(budget_bytes: usize, slab_bytes: usize) -> nat {
        let unit: int = if slab_bytes == 0 { 1 } else { slab_bytes as int };
        if budget_bytes as int / unit == 0 { 1 } else { (budget_bytes as int / unit) as nat }
    }

    /// An empty pool of as many slots as the budget buys.
    pub fn new(budget_bytes: usize, slab_bytes: usize) -> (c: DeviceSlabCache)
        requires
            Self::slots_for(budget_bytes, slab_bytes) <= u32::MAX,
            Self::slots_for(budget_bytes, slab_bytes) * slab_bytes + SLAB_SLACK <= usize::MAX,
        ensures
            c.wf(),
            c.slab_bytes == slab_bytes,
            c.meta@ == Seq::new(
                Self::slots_for(budget_bytes, slab_bytes),
                |i: int| free_meta(),
            ),
            c.free_list@ == Seq::new(
                Self::slots_for(budget_bytes, slab_bytes),
                |i: int| i as u32,
            ),
            c.map@ == Map::<u64, u32>::empty(),
            c.touch@ == Map::<u64, (u64, u64)>::empty(),
            c.ungrouped == 0,
            c.next_group == 1,
            c.hits == 0,
            c.misses == 0,
    {
        let unit: usize = if slab_bytes == 0 { 1 } else { slab_bytes };
        let bought: usize = budget_bytes / unit;
        let slots: usize = if bought == 0 { 1 } else { bought };
        let mut meta: Vec<SlotMeta> = Vec::new();
        let mut free_list: Vec<u32> = Vec::new();
        let mut i: usize = 0;
        while i < slots
            invariant
                i <= slots <= u32::MAX,
                meta@ =~= Seq::new(i as nat, |k: int| free_meta()),
                free_list@ =~= Seq::new(i as nat, |k: int| k as u32),
            decreases slots - i,
        {
            meta.push(SlotMeta { freq: 0, offset: NO_OFFSET, group: NO_GROUP });
            free_list.push(i as u32);
            i = i + 1;
        }
        let c = DeviceSlabCache {
            slab_bytes,
            pool_len: slots * slab_bytes + SLAB_SLACK,
            map: HashMap::new(),
            meta,
            free_list,
            ungrouped: 0,
            touch: HashMap::new(),
            next_group: 1,
            hits: 0,
            misses: 0,
        };
        proof {
            lemma_none_loose(c.meta@);
            assert forall|k: int| 0 <= k < c.meta@.len() implies #[trigger] c.meta@[k]
                == free_meta() && c.free_list@.contains(k as u32) by {
                assert(c.free_list@[k] == k as u32);
            }
        }
        c
    }

    /// Bytes of the device allocation behind the pool.
    pub fn pool_bytes(&self) -> (n: usize)
        ensures
            n == self.pool_len,
    {
        self.pool_len
    }

    /// Where `slot` starts inside the pool.
    pub fn slot_base(&self, slot: u32) -> (n: usize)
        requires
            self.wf(),
            slot < self.meta@.len(),
        ensures
            n == slot * self.slab_bytes,
            n + self.slab_bytes + SLAB_SLACK <= self.pool_len,
    {
        proof {
            let s = slot as int;
            let b = self.slab_bytes as int;
            let len = self.meta@.len() as int;
            assert((s + 1) * b <= len * b) by (nonlinear_arith)
                requires
                    s + 1 <= len,
                    0 <= b,
            ;
            assert((s + 1) * b == s * b + b) by (nonlinear_arith);
            assert(0 <= s * b) by (nonlinear_arith)
                requires
                    0 <= s,
                    0 <= b,
            ;
        }
        slot as usize * self.slab_bytes
    }

    /// Give one slot back.
    pub fn free_slot(&mut self, slot: u32)
        requires
            old(self).wf(),
            slot < old(self).meta@.len(),
        ensures
            final(self).wf(),
            final(self).state() == freed(old(self).state(), slot as int),
            final(self).same_rest(old(self)),
            final(self).next_group == old(self).next_group,
    {
        proof {
            lemma_freed_wf(self.state(), slot as int);
        }
        let m: SlotMeta = self.meta[slot as usize];
        if m.offset == NO_OFFSET {
            return ;
        }
        if m.group == NO_GROUP && self.ungrouped > 0 {
            self.ungrouped = self.ungrouped - 1;
        }
        self.map.remove(&m.offset);
        self.meta.set(slot as usize, SlotMeta { freq: 0, offset: NO_OFFSET, group: NO_GROUP });
        self.free_list.push(slot);
        proof {
            assert(self.state() =~= freed(old(self).state(), slot as int));
        }
    }

    /// Give back a slot together with every slot of its group.
    pub fn free_group_of(&mut self, slot: u32)
        requires
            old(self).wf(),
            slot < old(self).meta@.len(),
        ensures
            final(self).wf(),
            final(self).state() == unit_freed(old(self).state(), slot as int),
            final(self).same_rest(old(self)),
            final(self).next_group == old(self).next_group,
    {
        let g: u32 = self.meta[slot as usize].group;
        if g == NO_GROUP {
            self.free_slot(slot);
            return ;
        }
        let ghost start = self.state();
        let n: usize = self.meta.len();
        let mut i: usize = 0;
        while i < n
            invariant
                i <= n,
                n == start.meta.len(),
                n <= u32::MAX,
                start == old(self).state(),
                self.wf(),
                self.state() == group_freed(start, g, i as int),
                self.meta@.len() == n,
                self.same_rest(old(self)),
                self.next_group == old(self).next_group,
            decreases n - i,
        {
            proof {
                lemma_group_freed(start, g, i as int);
                assert(group_freed(start, g, i as int).meta[i as int] == start.meta[i as int]);
            }
            if self.meta[i].group == g {
                self.free_slot(i as u32);
            }
            i = i + 1;
        }
    }

    /// Count one more request for `offset`.
    pub fn bump(&mut self, offset: u64, len: u64) -> (freq: u64)
        requires
            old(self).wf(),
            heat_of(old(self).touch@, offset) < u64::MAX,
        ensures
            final(self).wf(),
            final(self).state() == old(self).state(),
            final(self).touch@ == touched(old(self).touch@, offset, len),
            freq == heat_of(final(self).touch@, offset),
            final(self).slab_bytes == old(self).slab_bytes,
            final(self).pool_len == old(self).pool_len,
            final(self).next_group == old(self).next_group,
            final(self).hits == old(self).hits,
            final(self).misses == old(self).misses,
    {
        let now: (u64, u64) = match self.touch.get(&offset) {
            Some(t) => (t.0 + 1, t.1),
            None => (1, len),
        };
        self.touch.insert(offset, now);
        now.0
    }

    /// Request a slab: count the touch, and say which slot holds it.
    pub fn get(&mut self, offset: u64, len: u64) -> (r: Option<u32>)
        requires
            old(self).wf(),
            heat_of(old(self).touch@, offset) < u64::MAX,
            old(self).hits < u64::MAX,
            old(self).misses < u64::MAX,
        ensures
            final(self).wf(),
            final(self).touch@ == touched(old(self).touch@, offset, len),
            final(self).map@ == old(self).map@,
            final(self).free_list@ == old(self).free_list@,
            final(self).ungrouped == old(self).ungrouped,
            final(self).slab_bytes == old(self).slab_bytes,
            final(self).pool_len == old(self).pool_len,
            final(self).next_group == old(self).next_group,
            if old(self).map@.contains_key(offset) {
                let slot = old(self).map@[offset];
                &&& r == Some(slot)
                &&& final(self).hits == old(self).hits + 1
                &&& final(self).misses == old(self).misses
                &&& final(self).meta@ == old(self).meta@.update(
                    slot as int,
                    SlotMeta {
                        freq: heat_of(final(self).touch@, offset),
                        ..old(self).meta@[slot as int]
                    },
                )
            } else {
                &&& r is None
                &&& final(self).hits == old(self).hits
                &&& final(self).misses == old(self).misses + 1
                &&& final(self).meta@ == old(self).meta@
            },
    {
        let freq: u64 = self.bump(offset, len);
        let found: Option<u32> = match self.map.get(&offset) {
            Some(s) => Some(*s),
            None => None,
        };
        match found {
            Some(slot) => {
                assert(self.state().map.contains_key(offset));
                let m: SlotMeta = self.meta[slot as usize];
                let ghost before = self.meta@;
                self.meta.set(slot as usize, SlotMeta { freq, offset: m.offset, group: m.group });
                self.hits = self.hits + 1;
                proof {
                    lemma_loose_update(
                        before,
                        slot as int,
                        SlotMeta { freq, offset: m.offset, group: m.group },
                    );
                    let q = self.state();
                    assert forall|i: int| 0 <= i < q.free.len() implies (#[trigger] q.free[i])
                        < q.meta.len() && q.meta[q.free[i] as int] == free_meta() by {
                        assert(before[q.free[i] as int] == free_meta());
                    }
                    assert forall|i: int| 0 <= i < q.meta.len() implies (#[trigger] q.meta[i]).offset
                        == before[i].offset && (i != slot ==> q.meta[i] == before[i]) by {}
                }
                Some(slot)
            },
            None => {
                self.misses = self.misses + 1;
                None
            },
        }
    }

    /// The slot that holds a slab, without counting anything.
    pub fn peek(&self, offset: u64) -> (r: Option<u32>)
        requires
            self.wf(),
        ensures
            r == if self.map@.contains_key(offset) { Some(self.map@[offset]) } else { None },
    {
        match self.map.get(&offset) {
            Some(s) => Some(*s),
            None => None,
        }
    }

    /// Touch count of an offset.
    pub fn heat(&self, offset: u64) -> (h: u64)
        ensures
            h == heat_of(self.touch@, offset),
    {
        match self.touch.get(&offset) {
            Some(t) => t.0,
            None => 0,
        }
    }

    /// Ask the pool to take one slab.
    ///
    /// A free slot is used as it is. Otherwise the coldest slab that was
    /// admitted alone and is not in use makes way, and only when it is
    /// strictly colder. Members of a group never make way here.
    pub fn maybe_insert(&mut self, offset: u64, in_use: &Vec<u64>) -> (r: Admission)
        requires
            old(self).wf(),
            offset != NO_OFFSET,
        ensures
            final(self).wf(),
            final(self).same_rest(old(self)),
            final(self).next_group == old(self).next_group,
            forall|i: int|
                0 <= i < old(self).meta@.len() && (#[trigger] old(self).meta@[i]).group != NO_GROUP
                    ==> final(self).meta@[i] == old(self).meta@[i],
            forall|off: u64| #[trigger]
                in_use@.contains(off) && old(self).map@.contains_key(off) ==> final(self).map@.contains_key(off) && final(self).map@[off] == old(self).map@[off],
            ({
                let p = old(self).state();
                let heat = heat_of(old(self).touch@, offset);
                let cold = coldest(p.meta, in_use@, true, p.meta.len() as int);
                if p.map.contains_key(offset) {
                    r == Admission::Resident(p.map[offset]) && final(self).state() == p
                } else if p.free.len() > 0 {
                    &&& r == Admission::Admitted(p.free.last())
                    &&& final(self).state() == placed(p, offset, heat, NO_GROUP)
                } else if cold is Some && p.meta[cold->0].freq < heat {
                    &&& r == Admission::Admitted(cold->0 as u32)
                    &&& final(self).state() == placed(freed(p, cold->0), offset, heat, NO_GROUP)
                } else {
                    r == Admission::Declined && final(self).state() == p
                }
            }),
    {
        let ghost p = self.state();
        match self.peek(offset) {
            Some(slot) => {
                return Admission::Resident(slot);
            },
            None => {},
        }
        if self.free_list.len() == 0 && self.ungrouped == 0 {
            proof {
                full_of_groups_admits_no_single(p, in_use@);
            }
            return Admission::Declined;
        }
        let freq: u64 = self.heat(offset);
        if self.free_list.len() == 0 {
            proof {
                lemma_coldest(p.meta, in_use@, true, p.meta.len() as int);
            }
            match find_coldest(&self.meta, in_use, true) {
                None => {
                    return Admission::Declined;
                },
                Some(v) => {
                    if self.meta[v as usize].freq >= freq {
                        return Admission::Declined;
                    }
                    proof {
                        assert(unit_freed(p, v as int) == freed(p, v as int));
                        lemma_unit_freed_keeps(p, v as int, in_use@);
                    }
                    self.free_slot(v);
                },
            }
        }
        let ghost q = self.state();
        let slot: u32 = self.place(offset, freq, NO_GROUP);
        proof {
            assert(keeps(p, q, in_use@));
            assert forall|off: u64| #[trigger] in_use@.contains(off) && p.map.contains_key(
                off,
            ) implies self.map@.contains_key(off) && self.map@[off] == p.map[off] by {
                assert(off != offset);
            }
        }
        Admission::Admitted(slot)
    }

    /// Take the slot on top of the free list for the slab at `offset`.
    fn place(&mut self, offset: u64, freq: u64, group: u32) -> (slot: u32)
        requires
            old(self).wf(),
            old(self).free_list@.len() > 0,
            offset != NO_OFFSET,
            !old(self).map@.contains_key(offset),
        ensures
            final(self).wf(),
            final(self).same_rest(old(self)),
            final(self).next_group == old(self).next_group,
            final(self).state() == placed(old(self).state(), offset, freq, group),
            slot == old(self).free_list@.last(),
            final(self).map@[offset] == slot,
    {
        let ghost p = self.state();
        proof {
            lemma_placed_wf(p, offset, freq, group);
        }
        let slot: u32 = self.free_list.pop().unwrap();
        self.meta.set(slot as usize, SlotMeta { freq, offset, group });
        if group == NO_GROUP {
            self.ungrouped = self.ungrouped + 1;
        }
        self.map.insert(offset, slot);
        proof {
            assert(self.state() =~= placed(p, offset, freq, group));
        }
        slot
    }

    /// Place one part of a triple, unless it is resident. Returns its slot,
    /// and whether it was placed.
    fn place_part(&mut self, offset: u64, group: u32) -> (r: (u32, bool))
        requires
            old(self).wf(),
            offset != NO_OFFSET,
            old(self).map@.contains_key(offset) || old(self).free_list@.len() > 0,
        ensures
            final(self).wf(),
            final(self).same_rest(old(self)),
            final(self).next_group == old(self).next_group,
            r.1 == !old(self).map@.contains_key(offset),
            final(self).state() == (if r.1 {
                placed(old(self).state(), offset, heat_of(old(self).touch@, offset), group)
            } else {
                old(self).state()
            }),
            final(self).map@.contains_key(offset),
            final(self).map@[offset] == r.0,
    {
        match self.peek(offset) {
            Some(slot) => (slot, false),
            None => {
                let freq: u64 = self.heat(offset);
                (self.place(offset, freq, group), true)
            },
        }
    }

    /// Ask the pool to take three slabs as one unit, all or nothing.
    ///
    /// The triple's heat is the sum of the three touch counts. Units that
    /// are colder make way until there is a slot for each missing part; a
    /// unit that holds a part of the triple, or a slab in use, does not.
    /// When that is not enough room, nothing changes.
    pub fn maybe_insert_triple(&mut self, offs: [u64; 3], in_use: &Vec<u64>) -> (r: TripleAdmission)
        requires
            old(self).wf(),
            forall|i: int| 0 <= i < 3 ==> offs@[i] != NO_OFFSET,
        ensures
            final(self).wf(),
            final(self).same_rest(old(self)),
            ({
                let p = old(self).state();
                let touch = old(self).touch@;
                let gid = old(self).next_group;
                let need = missing_parts(p.map, offs@);
                let room = make_room(p, need, triple_heat(touch, offs@), in_use@ + offs@);
                if need == 0 {
                    &&& r is Admitted
                    &&& final(self).state() == p
                    &&& final(self).next_group == gid
                } else if room is Some {
                    &&& r is Admitted
                    &&& final(self).state() == parts_placed(room->0, touch, offs@, gid, 3)
                    &&& final(self).next_group == next_group_id(gid)
                } else {
                    &&& r is Declined
                    &&& final(self).state() == p
                    &&& final(self).next_group == gid
                }
            }),
            r matches TripleAdmission::Admitted { slots, fresh } ==> {
                &&& forall|i: int|
                    0 <= i < 3 ==> {
                        &&& final(self).map@.contains_key(#[trigger] offs@[i])
                        &&& final(self).map@[offs@[i]] == slots@[i]
                        &&& fresh@[i] == is_missing(old(self).map@, offs@, i)
                        &&& old(self).map@.contains_key(offs@[i]) ==> old(self).map@[offs@[i]]
                            == slots@[i]
                    }
                &&& forall|i: int, j: int|
                    0 <= i < j < 3 && #[trigger] offs@[i] != #[trigger] offs@[j] ==> slots@[i]
                        != slots@[j]
                &&& forall|off: u64| #[trigger]
                    in_use@.contains(off) && old(self).map@.contains_key(off) ==> final(self).map@.contains_key(off) && final(self).map@[off] == old(self).map@[off]
            },
    {
        let ghost p = self.state();
        let ghost touch = self.touch@;
        let ghost keep = in_use@ + offs@;
        let mut need: usize = 0;
        let mut heat: u128 = 0;
        let mut i: usize = 0;
        while i < 3
            invariant
                i <= 3,
                need == missing_upto(p.map, offs@, i as int),
                need <= i,
                heat == heat_upto(self.touch@, offs@, i as int),
                heat <= i * u64::MAX,
                self.state() == p,
                self.wf(),
                *self == *old(self),
            decreases 3 - i,
        {
            let off: u64 = offs[i];
            if self.peek(off).is_none() && !repeats(&offs, i) {
                need = need + 1;
            }
            heat = heat + self.heat(off) as u128;
            i = i + 1;
        }
        if need > 0 {
            let mut spared: Vec<u64> = Vec::new();
            extend(&mut spared, in_use);
            spared.push(offs[0]);
            spared.push(offs[1]);
            spared.push(offs[2]);
            assert(spared@ =~= keep);
            match find_room(&self.meta, self.free_list.len(), need, heat, &spared, Ghost(p)) {
                None => {
                    return TripleAdmission::Declined;
                },
                Some(units) => {
                    self.free_units(&units);
                },
            }
        }
        let ghost q = self.state();
        proof {
            if need > 0 {
                room_spares_what_is_kept(p, need as nat, heat as nat, keep);
            }
            assert forall|k: int| 0 <= k < 3 implies keep.contains(#[trigger] offs@[k]) by {
                assert(keep[in_use@.len() + k] == offs@[k]);
            }
            assert forall|off: u64| #[trigger] in_use@.contains(off) implies keep.contains(off) by {
                let k = choose|k: int| 0 <= k < in_use@.len() && in_use@[k] == off;
                assert(keep[k] == off);
            }
            assert(keeps(p, q, keep));
            lemma_missing_same(p.map, q.map, offs@, 3);
            reveal_with_fuel(parts_placed, 4);
            reveal_with_fuel(missing_upto, 4);
            lemma_parts_placed(q, touch, offs@, self.next_group, 0);
            lemma_parts_placed(q, touch, offs@, self.next_group, 1);
            lemma_parts_placed(q, touch, offs@, self.next_group, 2);
            lemma_parts_placed(q, touch, offs@, self.next_group, 3);
        }
        let gid: u32 = self.next_group;
        let a: (u32, bool) = self.place_part(offs[0], gid);
        assert(self.state() == parts_placed(q, touch, offs@, gid, 1));
        let b: (u32, bool) = self.place_part(offs[1], gid);
        assert(self.state() == parts_placed(q, touch, offs@, gid, 2));
        let c: (u32, bool) = self.place_part(offs[2], gid);
        assert(self.state() == parts_placed(q, touch, offs@, gid, 3));
        if need > 0 {
            self.next_group = if gid == 0xffff_fffe { 1 } else { gid + 1 };
        }
        TripleAdmission::Admitted { slots: [a.0, b.0, c.0], fresh: [a.1, b.1, c.1] }
    }

    /// Give up each of `units` in turn, with its group.
    fn free_units(&mut self, units: &Vec<u32>)
        requires
            old(self).wf(),
            forall|i: int| 0 <= i < units@.len() ==> (#[trigger] units@[i]) < old(self).meta@.len(),
        ensures
            final(self).wf(),
            final(self).same_rest(old(self)),
            final(self).next_group == old(self).next_group,
            final(self).state() == units_freed(old(self).state(), units@),
    {
        let ghost p = self.state();
        let mut i: usize = 0;
        assert(units@.take(0) =~= Seq::<u32>::empty());
        while i < units.len()
            invariant
                i <= units@.len(),
                p == old(self).state(),
                forall|k: int| 0 <= k < units@.len() ==> (#[trigger] units@[k]) < p.meta.len(),
                self.wf(),
                self.meta@.len() == p.meta.len(),
                self.same_rest(old(self)),
                self.next_group == old(self).next_group,
                self.state() == units_freed(p, units@.take(i as int)),
            decreases units@.len() - i,
        {
            proof {
                lemma_unit_freed_wf(self.state(), units@[i as int] as int);
                assert(units@.take(i + 1).drop_last() =~= units@.take(i as int));
            }
            self.free_group_of(units[i]);
            i = i + 1;
        }
        assert(units@.take(i as int) =~= units@);
    }
}

/// True when `offs[i]` also stands before `i`.
fn repeats(offs: &[u64; 3], i: usize) -> (r: bool)
    requires
        i < 3,
    ensures
        r == exists|j: int| 0 <= j < i && #[trigger] offs@[j] == offs@[i as int],
{
    let mut j: usize = 0;
    while j < i
        invariant
            j <= i < 3,
            forall|k: int| 0 <= k < j ==> #[trigger] offs@[k] != offs@[i as int],
        decreases i - j,
    {
        if offs[j] == offs[i] {
            return true;
        }
        j = j + 1;
    }
    false
}

fn extend(acc: &mut Vec<u64>, v: &Vec<u64>)
    ensures
        final(acc)@ == old(acc)@ + v@,
{
    let mut i: usize = 0;
    while i < v.len()
        invariant
            i <= v@.len(),
            acc@ =~= old(acc)@ + v@.take(i as int),
        decreases v@.len() - i,
    {
        acc.push(v[i]);
        i = i + 1;
    }
    assert(v@.take(i as int) =~= v@);
}

/// True when giving up slot `i` gives up something in `keep`.
fn is_unit_kept(meta: &Vec<SlotMeta>, i: usize, keep: &Vec<u64>) -> (r: bool)
    requires
        i < meta@.len(),
    ensures
        r == unit_kept(meta@, i as int, keep@),
{
    let m: SlotMeta = meta[i];
    if holds(keep, m.offset) {
        return true;
    }
    if m.group == NO_GROUP {
        return false;
    }
    let mut j: usize = 0;
    while j < meta.len()
        invariant
            j <= meta@.len(),
            i < meta@.len(),
            m == meta@[i as int],
            m.group != NO_GROUP,
            !keep@.contains(m.offset),
            forall|k: int|
                0 <= k < j && (#[trigger] meta@[k]).group == m.group ==> !keep@.contains(
                    meta@[k].offset,
                ),
        decreases meta@.len() - j,
    {
        let k: SlotMeta = meta[j];
        if k.group == m.group && holds(keep, k.offset) {
            assert(meta@[j as int] == k);
            return true;
        }
        j = j + 1;
    }
    false
}

fn find_coldest(meta: &Vec<SlotMeta>, keep: &Vec<u64>, alone: bool) -> (r: Option<u32>)
    requires
        meta@.len() <= u32::MAX,
    ensures
        match r {
            Some(v) => coldest(meta@, keep@, alone, meta@.len() as int) == Some(v as int) && v
                < meta@.len(),
            None => coldest(meta@, keep@, alone, meta@.len() as int) is None,
        },
{
    let mut best: Option<u32> = None;
    let mut i: usize = 0;
    let n: usize = meta.len();
    while i < n
        invariant
            i <= n,
            n == meta@.len(),
            n <= u32::MAX,
            match best {
                Some(v) => coldest(meta@, keep@, alone, i as int) == Some(v as int) && v < n,
                None => coldest(meta@, keep@, alone, i as int) is None,
            },
        decreases n - i,
    {
        let m: SlotMeta = meta[i];
        let colder: bool = match best {
            Some(b) => m.freq < meta[b as usize].freq,
            None => true,
        };
        if colder && m.offset != NO_OFFSET && (!alone || m.group == NO_GROUP) && !is_unit_kept(
            meta,
            i,
            keep,
        ) {
            best = Some(i as u32);
        }
        i = i + 1;
    }
    best
}

fn unit_heat_of(meta: &Vec<SlotMeta>, slot: u32) -> (h: u128)
    requires
        meta@.len() <= u32::MAX,
        slot < meta@.len(),
    ensures
        h == unit_heat(meta@, slot as int),
{
    let m: SlotMeta = meta[slot as usize];
    if m.group == NO_GROUP {
        return m.freq as u128;
    }
    let n: usize = meta.len();
    let mut sum: u128 = 0;
    let mut i: usize = 0;
    while i < n
        invariant
            i <= n,
            n == meta@.len(),
            n <= u32::MAX,
            sum == group_sum(meta@, m.group, i as int),
            sum <= i * u64::MAX,
        decreases n - i,
    {
        assert((i + 1) * u64::MAX <= 0x1_0000_0000 * u64::MAX) by (nonlinear_arith)
            requires
                i + 1 <= 0x1_0000_0000,
        ;
        assert((i + 1) * u64::MAX == i * u64::MAX + u64::MAX) by (nonlinear_arith);
        let k: SlotMeta = meta[i];
        if k.group == m.group {
            sum = sum + k.freq as u128;
        }
        i = i + 1;
    }
    sum
}

/// Mark the unit of `slot` as free in `meta`; returns how many slots that
/// frees.
fn clear_unit(meta: &mut Vec<SlotMeta>, slot: u32, Ghost(p): Ghost<PoolState>) -> (n: u64)
    requires
        old(meta)@ == p.meta,
        p.meta.len() <= u32::MAX,
        slot < p.meta.len(),
        p.meta[slot as int].offset != NO_OFFSET,
    ensures
        final(meta)@ == unit_freed(p, slot as int).meta,
        p.free.len() + n == unit_freed(p, slot as int).free.len(),
        n <= p.meta.len(),
{
    let g: u32 = meta[slot as usize].group;
    if g == NO_GROUP {
        meta.set(slot as usize, SlotMeta { freq: 0, offset: NO_OFFSET, group: NO_GROUP });
        return 1;
    }
    let len: usize = meta.len();
    let mut n: u64 = 0;
    let mut i: usize = 0;
    while i < len
        invariant
            i <= len,
            len == p.meta.len(),
            n <= i,
            meta@ == group_freed(p, g, i as int).meta,
            meta@.len() == len,
            p.free.len() + n == group_freed(p, g, i as int).free.len(),
        decreases len - i,
    {
        proof {
            lemma_group_freed(p, g, i as int);
            assert(group_freed(p, g, i as int).meta[i as int] == p.meta[i as int]);
        }
        let m: SlotMeta = meta[i];
        if m.group == g && m.offset != NO_OFFSET {
            meta.set(i, SlotMeta { freq: 0, offset: NO_OFFSET, group: NO_GROUP });
            n = n + 1;
        }
        i = i + 1;
    }
    n
}

/// The units to give up, in order, so that `need` slots are free; `None`
/// when that cannot be had.
fn find_room(
    meta: &Vec<SlotMeta>,
    free: usize,
    need: usize,
    heat: u128,
    keep: &Vec<u64>,
    Ghost(p): Ghost<PoolState>,
) -> (r: Option<Vec<u32>>)
    requires
        pool_wf(p),
        meta@ == p.meta,
        free == p.free.len(),
        need <= 3,
    ensures
        match r {
            Some(units) => {
                &&& make_room(p, need as nat, heat as nat, keep@) == Some(units_freed(p, units@))
                &&& forall|i: int|
                    0 <= i < units@.len() ==> (#[trigger] units@[i]) < p.meta.len()
            },
            None => make_room(p, need as nat, heat as nat, keep@) is None,
        },
{
    let mut units: Vec<u32> = Vec::new();
    let mut sim: Vec<SlotMeta> = Vec::new();
    let mut i: usize = 0;
    while i < meta.len()
        invariant
            i <= meta@.len(),
            sim@ =~= meta@.take(i as int),
        decreases meta@.len() - i,
    {
        sim.push(meta[i]);
        i = i + 1;
    }
    assert(meta@.take(i as int) =~= meta@);
    let mut have: u64 = free as u64;
    let ghost mut q = p;
    while have < need as u64
        invariant
            pool_wf(q),
            need <= 3,
            sim@ == q.meta,
            q.meta.len() == p.meta.len(),
            have == q.free.len(),
            q == units_freed(p, units@),
            make_room(q, need as nat, heat as nat, keep@) == make_room(
                p,
                need as nat,
                heat as nat,
                keep@,
            ),
            forall|k: int| 0 <= k < units@.len() ==> (#[trigger] units@[k]) < p.meta.len(),
        decreases occupied(q.meta),
    {
        match find_coldest(&sim, keep, false) {
            None => {
                return None;
            },
            Some(v) => {
                proof {
                    lemma_coldest(q.meta, keep@, false, q.meta.len() as int);
                    lemma_unit_freed_shrinks(q, v as int);
                    lemma_unit_freed_wf(q, v as int);
                }
                let given: u128 = unit_heat_of(&sim, v);
                if given >= heat {
                    return None;
                }
                let n: u64 = clear_unit(&mut sim, v, Ghost(q));
                have = have + n;
                let ghost was = units@;
                units.push(v);
                proof {
                    assert(units@.drop_last() =~= was);
                    q = unit_freed(q, v as int);
                }
            },
        }
    }
    Some(units)
}

/// Giving up a group member gives up the whole group and nothing else.
pub proof fn group_leaves_whole(p: PoolState, slot: int)
    requires
        pool_wf(p),
        0 <= slot < p.meta.len(),
        p.meta[slot].group != NO_GROUP,
    ensures
        forall|i: int|
            0 <= i < p.meta.len() ==> #[trigger] unit_freed(p, slot).meta[i] == if p.meta[i].group
                == p.meta[slot].group {
                free_meta()
            } else {
                p.meta[i]
            },
{
    lemma_group_slots(p, p.meta[slot].group, p.meta.len() as int);
}

proof fn lemma_group_slots(p: PoolState, g: u32, n: int)
    requires
        pool_wf(p),
        0 <= n <= p.meta.len(),
        g != NO_GROUP,
    ensures
        group_freed(p, g, n).meta.len() == p.meta.len(),
        forall|i: int|
            0 <= i < p.meta.len() ==> #[trigger] group_freed(p, g, n).meta[i] == if i < n
                && p.meta[i].group == g {
                free_meta()
            } else {
                p.meta[i]
            },
    decreases n,
{
    if n > 0 {
        lemma_group_slots(p, g, n - 1);
    }
}

/// With no slab left that was admitted alone, no slot can be given to a
/// single slab.
pub proof fn full_of_groups_admits_no_single(p: PoolState, in_use: Seq<u64>)
    requires
        pool_wf(p),
        p.ungrouped == 0,
    ensures
        coldest(p.meta, in_use, true, p.meta.len() as int) is None,
{
    let n = p.meta.len() as int;
    lemma_coldest(p.meta, in_use, true, n);
    if let Some(v) = coldest(p.meta, in_use, true, n) {
        lemma_loose_update(p.meta, v, free_meta());
        assert(is_loose(p.meta[v]));
    }
}

/// True when the `i`th of `offs` is not resident and stands there for the
/// first time.
pub open spec fn is_missing(map: Map<u64, u32>, offs: Seq<u64>, i: int) -> bool {
    !map.contains_key(offs[i]) && !exists|j: int| 0 <= j < i && #[trigger] offs[j] == offs[i]
}

/// How many slots the first `n` offsets need.
pub open spec fn missing_upto(map: Map<u64, u32>, offs: Seq<u64>, n: int) -> nat
    decreases n,
{
    if n <= 0 {
        0
    } else {
        missing_upto(map, offs, n - 1) + if is_missing(map, offs, n - 1) { 1nat } else { 0nat }
    }
}

proof fn lemma_missing_same(a: Map<u64, u32>, b: Map<u64, u32>, offs: Seq<u64>, n: int)
    requires
        n <= offs.len(),
        forall|i: int|
            0 <= i < offs.len() ==> a.contains_key(#[trigger] offs[i]) == b.contains_key(offs[i]),
    ensures
        missing_upto(a, offs, n) == missing_upto(b, offs, n),
        forall|i: int| 0 <= i < n ==> is_missing(a, offs, i) == is_missing(b, offs, i),
    decreases n,
{
    if n > 0 {
        lemma_missing_same(a, b, offs, n - 1);
    }
}

pub open spec fn missing_parts(map: Map<u64, u32>, offs: Seq<u64>) -> nat {
    missing_upto(map, offs, offs.len() as int)
}

/// Sum of the touch counts of the first `n` offsets.
pub open spec fn heat_upto(touch: Map<u64, (u64, u64)>, offs: Seq<u64>, n: int) -> nat
    decreases n,
{
    if n <= 0 {
        0
    } else {
        heat_upto(touch, offs, n - 1) + heat_of(touch, offs[n - 1]) as nat
    }
}

pub open spec fn triple_heat(touch: Map<u64, (u64, u64)>, offs: Seq<u64>) -> nat {
    heat_upto(touch, offs, offs.len() as int)
}

/// The group id after `g`: ids wrap around and skip zero and the id that
/// stands for no group.
pub open spec fn next_group_id(g: u32) -> u32 {
    if g + 1 >= NO_GROUP {
        1
    } else {
        (g + 1) as u32
    }
}

} // verus!
