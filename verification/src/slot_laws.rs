//! What serves a slot, what a resolve asks for, and which run is chosen.

use vstd::prelude::*;

use crate::args::Args;
use crate::attn;
use crate::attn::Selection;
use crate::bank::{ExpertBank, Facts};
use crate::dev_cache;
use crate::geom;
use crate::graph;
use crate::layer_plan::Step;
use crate::parts;
use crate::parts::LatentError;
use crate::resolve;
use crate::resolve::{Place, SlotUse, WantState};
use crate::session;
use crate::session::{Drafts, Mode};
use crate::shape::Shape;
use crate::store::Read;

verus! {

/// A slot is served by a tier that holds its expert, else by the lane that
/// took it, else by the card: in the pass of the shared bank where it is a
/// shared expert of another layout, in the routed pass otherwise.
pub proof fn slots_are_served_once(
    e: u32,
    n_expert: u32,
    tier: Option<usize>,
    on_lane: bool,
    same: bool,
)
    ensures
        ({
            let u = resolve::use_of(e, n_expert, tier, on_lane, same);
            let apart = e >= n_expert && !same;
            &&& tier matches Some(t) ==> u == (SlotUse::Tier { tier: t, bank_pass: apart })
            &&& u == SlotUse::Lane <==> tier is None && on_lane
            &&& u == SlotUse::Bank <==> tier is None && !on_lane && apart
            &&& u == SlotUse::Primary <==> tier is None && !on_lane && !apart
        }),
{
}

/// A tier's count is the number of slots that it serves in that pass.
pub proof fn tiers_count_their_slots(us: Seq<SlotUse>, tier: usize, bank_pass: bool, n: int)
    requires
        0 <= n <= us.len(),
    ensures
        graph::served(us, tier, bank_pass, n) == us.take(n).filter(
            |u: SlotUse| u == (SlotUse::Tier { tier, bank_pass }),
        ).len(),
    decreases n,
{
    let f = |u: SlotUse| u == (SlotUse::Tier { tier, bank_pass });
    reveal(Seq::filter);
    if n > 0 {
        tiers_count_their_slots(us, tier, bank_pass, n - 1);
        assert(us.take(n).drop_last() =~= us.take(n - 1));
    } else {
        assert(us.take(0) =~= Seq::<SlotUse>::empty());
    }
}

/// A batch is grouped by expert from sixteen tokens on, with at most sixteen
/// experts a token, where its rows fit, its activations are whole blocks and
/// nothing forbids it.
pub proof fn large_batches_are_grouped(
    n_tok: u32,
    n_used: u32,
    fits: bool,
    n_ff_exp: u32,
    forbidden: bool,
)
    ensures
        resolve::is_grouped(n_tok, n_used, fits, n_ff_exp, forbidden) <==> n_tok > 15 && n_used < 17
            && fits && !forbidden && n_ff_exp % 256 == 0,
{
}

/// One read of a resolve: a slab of the draft layer is there; one that was
/// resolved before stays where it is; on shared memory any other is asked of
/// the host; otherwise one that the card caches is a hit at its slot, and
/// any other a miss that is asked of the host.
pub proof fn reads_are_found_or_wanted(
    s: WantState,
    r: Read,
    mtp: Map<u64, usize>,
    unified: bool,
    map: Map<u64, u32>,
)
    requires
        map.contains_key(r.offset) ==> map[r.offset] < s.meta.len(),
    ensures
        ({
            let t = resolve::want_step(s, r, mtp, unified, map);
            let draft = mtp.contains_key(r.offset);
            let known = !draft && s.resolved.contains_key(r.offset);
            let fresh = !draft && !known;
            let hit = fresh && !unified && map.contains_key(r.offset);
            let miss = fresh && !unified && !map.contains_key(r.offset);
            &&& draft ==> t.resolved == s.resolved.insert(
                r.offset,
                Place::Draft(mtp[r.offset]),
            )
            &&& hit ==> t.resolved == s.resolved.insert(r.offset, Place::Slot(map[r.offset]))
            &&& !draft && !hit ==> t.resolved == s.resolved
            &&& t.wants == (if fresh && !hit {
                s.wants.push(r)
            } else {
                s.wants
            })
            &&& t.hits == s.hits + (if hit {
                1int
            } else {
                0
            })
            &&& t.misses == s.misses + (if miss {
                1int
            } else {
                0
            })
            &&& t.touch == (if known || hit || miss {
                dev_cache::touched(s.touch, r.offset, r.len)
            } else {
                s.touch
            })
            &&& !hit ==> t.meta == s.meta
            &&& hit ==> t.meta.len() == s.meta.len() && forall|k: int|
                0 <= k < s.meta.len() && k != map[r.offset] ==> #[trigger] t.meta[k] == s.meta[k]
        }),
{
}

/// Some read of the list starts at this offset.
pub open spec fn starts(v: Seq<Read>, off: u64) -> bool {
    exists|k: int| 0 <= k < v.len() && (#[trigger] v[k]).offset == off
}

/// Read lists hold the three slabs of every expert that no tier serves and
/// the lane does not take, or takes while it is checked; and every read of
/// the list is such a slab.
pub proof fn unserved_experts_are_read(
    b: &ExpertBank,
    d: Seq<u32>,
    facts: Seq<Facts>,
    lane: Seq<u32>,
    verify: bool,
    n: int,
)
    requires
        0 <= n <= d.len(),
        facts.len() == d.len(),
    ensures
        forall|i: int, k: int|
            0 <= i < n && 0 <= k < 3 && (#[trigger] facts[i]).tier is None && (!lane.contains(d[i])
                || verify) ==> starts(
                resolve::reads_for(b, d, facts, lane, verify, n),
                (#[trigger] b.slabs(d[i])[k]).offset,
            ),
        forall|r: Read| #[trigger]
            resolve::reads_for(b, d, facts, lane, verify, n).contains(r) ==> exists|i: int, k: int|
                0 <= i < n && 0 <= k < 3 && (#[trigger] facts[i]).tier is None && (!lane.contains(
                    d[i],
                ) || verify) && r == #[trigger] b.slabs(d[i])[k],
    decreases n,
{
    if n > 0 {
        unserved_experts_are_read(b, d, facts, lane, verify, n - 1);
        let a = resolve::reads_for(b, d, facts, lane, verify, n - 1);
        let v = resolve::reads_for(b, d, facts, lane, verify, n);
        let s = b.slabs(d[n - 1]);
        let x = resolve::with_read(a, s[0]);
        let y = resolve::with_read(x, s[1]);
        lemma_with_read(a, s[0]);
        lemma_with_read(x, s[1]);
        lemma_with_read(y, s[2]);
        assert forall|i: int, k: int|
            0 <= i < n && 0 <= k < 3 && (#[trigger] facts[i]).tier is None && (!lane.contains(d[i])
                || verify) implies starts(v, (#[trigger] b.slabs(d[i])[k]).offset) by {
            if i < n - 1 {
                assert(starts(a, b.slabs(d[i])[k].offset));
            } else {
                assert(k == 0 || k == 1 || k == 2);
            }
        }
        assert forall|r: Read| #[trigger] v.contains(r) implies exists|i: int, k: int|
            0 <= i < n && 0 <= k < 3 && (#[trigger] facts[i]).tier is None && (!lane.contains(d[i])
                || verify) && r == #[trigger] b.slabs(d[i])[k] by {
            if a.contains(r) {
                let (i, k) = choose|i: int, k: int|
                    0 <= i < n - 1 && 0 <= k < 3 && (#[trigger] facts[i]).tier is None && (
                    !lane.contains(d[i]) || verify) && r == #[trigger] b.slabs(d[i])[k];
                assert(facts[i].tier is None && r == b.slabs(d[i])[k]);
            } else {
                assert(facts[n - 1].tier is None);
                assert(r == b.slabs(d[n - 1])[0] || r == b.slabs(d[n - 1])[1] || r == b.slabs(
                    d[n - 1],
                )[2]);
            }
        }
    }
}

proof fn lemma_with_read(a: Seq<Read>, r: Read)
    ensures
        starts(resolve::with_read(a, r), r.offset),
        forall|o: u64| starts(a, o) ==> #[trigger] starts(resolve::with_read(a, r), o),
        forall|x: Read| #[trigger] resolve::with_read(a, r).contains(x) ==> a.contains(x) || x == r,
{
    let v = resolve::with_read(a, r);
    assert(v[v.len() - 1].offset == r.offset);
    assert forall|o: u64| starts(a, o) implies #[trigger] starts(v, o) by {
        let k = choose|k: int| 0 <= k < a.len() && (#[trigger] a[k]).offset == o;
        assert(v[k] == a[k]);
    }
    assert forall|x: Read| #[trigger] v.contains(x) implies a.contains(x) || x == r by {
        let k = choose|k: int| 0 <= k < v.len() && v[k] == x;
        if k < a.len() {
            assert(a[k] == x);
        }
    }
}

/// A factor of one is no factor, and any other is itself.
pub proof fn ones_are_no_factor(b: u32)
    ensures
        graph::worth(None) is None,
        b == 0x3f80_0000 ==> graph::worth(Some(b)) is None,
        b != 0x3f80_0000 ==> graph::worth(Some(b)) == Some(b),
{
}

/// A latent layer sees the rows up to its last token, and fails where there
/// is no position that far or nothing was selected; a live list on another
/// card is fetched first, whole; and only a layer that selects for itself
/// keeps selection keys.
pub proof fn latent_layers_see_their_rows(
    v: Seq<Step>,
    s: &Shape,
    sel: Selection,
    il: int,
    dev: i32,
    known: bool,
    pos: u32,
    n_tok: u32,
)
    ensures
        ({
            let r = parts::latent_of(v, s, sel, il, dev, known, pos, n_tok);
            let idx = parts::holds(v, "indexer.attn_q_b.weight"@);
            let far = sel.len > 0 && sel.dev >= 0 && sel.dev != dev && known;
            let here = if far {
                Selection { len: sel.len, dev }
            } else {
                sel
            };
            let rows = attn::rows_of(
                here,
                s.n_idx_topk,
                (pos + n_tok) as u32,
                il,
                s.n_leading_dense,
                idx,
            );
            &&& r == Err::<graph::LatentFacts, LatentError>(LatentError::Position) <==> pos + n_tok
                > u32::MAX
            &&& pos + n_tok <= u32::MAX && rows is None ==> r == Err::<
                graph::LatentFacts,
                LatentError,
            >(LatentError::NoSelection)
            &&& pos + n_tok <= u32::MAX && rows is Some ==> r is Ok && {
                let f = r->Ok_0;
                &&& f.visible == pos + n_tok
                &&& f.rows == rows->0
                &&& f.batch <==> n_tok > 1
                &&& f.hop is Some <==> far
                &&& f.hop is Some ==> f.hop == Some(sel.len)
                &&& f.keeps_keys <==> idx && geom::full_indexer(il, s.n_leading_dense as int)
            }
        }),
{
}

/// A chat comes before everything, teacher forcing before other diagnoses,
/// these before writing logits out, and that before any speculation; a draft
/// model before a block draft before drafts of its own.
pub proof fn modes_have_an_order(a: &Args, d: Drafts)
    ensures
        ({
            let m = session::mode_of(a, d);
            let free = !a.chat && !a.teacher_force;
            let bare = free && a.capture is None && a.rows_consistency is None
                && a.decode_consistency is None;
            let quiet = bare && a.dump_logits is None;
            &&& m == Mode::Chat <==> a.chat
            &&& m == Mode::TeacherDump <==> !a.chat && a.teacher_force && a.dump_logits is Some
            &&& m == Mode::TeacherTop <==> !a.chat && a.teacher_force && a.dump_logits is None
            &&& m == Mode::Capture <==> free && a.capture is Some
            &&& free && a.capture is None && a.rows_consistency is Some ==> m == Mode::Rows(
                a.rows_consistency->0,
            )
            &&& free && a.capture is None && a.rows_consistency is None && a.decode_consistency is Some
                ==> m == Mode::Decode(a.decode_consistency->0)
            &&& m == Mode::DumpLogits <==> bare && a.dump_logits is Some
            &&& m == Mode::DraftModel <==> quiet && d.model
            &&& m == Mode::BlockDraft <==> quiet && !d.model && d.block
            &&& m == Mode::Speculate <==> quiet && !d.model && !d.block && d.own
            &&& m == Mode::Plain <==> quiet && !d.model && !d.block && !d.own
        }),
{
}

} // verus!
