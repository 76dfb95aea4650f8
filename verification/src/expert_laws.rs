//! Where the slabs of experts lie: in the file, and in a pool of their own.

use vstd::prelude::*;

use crate::bank;
use crate::bank::{ExpertBank, TierMap};
use crate::header;
use crate::header::Header;
use crate::loading;
use crate::loading::LoadFault;
use crate::shape::{Arch, Shape};
use crate::store::Read;
use crate::tensors;

verus! {

/// The three slabs of a routed expert stand at its place in its layer's three
/// tensors; those of a shared one in the shared tensors, counted from the
/// first shared one. Slab `e` starts where the `e` slabs before it end.
pub proof fn experts_have_three_slabs(b: &ExpertBank, e: u32)
    requires
        b.wf(),
        e < b.limit(),
    ensures
        b.slabs(e).len() == 3,
        e < b.n_expert ==> {
            &&& b.slabs(e)[0].offset == b.gate.abs_offset + e * b.gate.expert_bytes
            &&& b.slabs(e)[1].offset == b.up.abs_offset + e * b.up.expert_bytes
            &&& b.slabs(e)[2].offset == b.down.abs_offset + e * b.down.expert_bytes
            &&& b.slabs(e)[0].len == b.gate.expert_bytes && b.slabs(e)[1].len == b.up.expert_bytes
            &&& b.slabs(e)[2].len == b.down.expert_bytes
        },
        e >= b.n_expert ==> b.sink is Some && {
            let s = b.sink->0@;
            let k = e - b.n_expert;
            &&& b.slabs(e)[0].offset == s[0].abs_offset + k * s[0].expert_bytes
            &&& b.slabs(e)[1].offset == s[1].abs_offset + k * s[1].expert_bytes
            &&& b.slabs(e)[2].offset == s[2].abs_offset + k * s[2].expert_bytes
            &&& b.slabs(e)[0].len == s[0].expert_bytes && b.slabs(e)[1].len == s[1].expert_bytes
            &&& b.slabs(e)[2].len == s[2].expert_bytes
        },
{
    if e < b.n_expert {
        tensors::lemma_slab_bound(b.gate, e as int, b.n_expert as nat);
        tensors::lemma_slab_bound(b.up, e as int, b.n_expert as nat);
        tensors::lemma_slab_bound(b.down, e as int, b.n_expert as nat);
    } else {
        let s = b.sink->0@;
        tensors::lemma_slab_bound(s[0], e - b.n_expert, b.n_sink as nat);
        tensors::lemma_slab_bound(s[1], e - b.n_expert, b.n_sink as nat);
        tensors::lemma_slab_bound(s[2], e - b.n_expert, b.n_sink as nat);
    }
}

/// Shared experts join the routed launch where all three of their tensors
/// have the encoding and the row width of the routed ones; grouped rows fit
/// where four deep they take no more than 48 kibibytes, two of the wider of
/// gate and up, or one of down.
pub proof fn launches_join_equal_rows(b: &ExpertBank)
    ensures
        b.sink is None ==> b.bank_matches(),
        b.sink matches Some(s) ==> (b.bank_matches() <==> s@[0].quant == b.gate.quant && s@[1].quant
            == b.up.quant && s@[2].quant == b.down.quant && s@[0].row_bytes == b.gate.row_bytes
            && s@[1].row_bytes == b.up.row_bytes && s@[2].row_bytes == b.down.row_bytes),
        b.rows_fit() <==> 8 * b.gate.row_bytes <= 48 * 1024 && 8 * b.up.row_bytes <= 48 * 1024 && 4
            * b.down.row_bytes <= 48 * 1024,
{
}

/// An expert is served by the first tier that holds all three of its slabs.
pub proof fn first_tiers_serve(tiers: Seq<TierMap>, slabs: Seq<Read>, n: int)
    requires
        0 <= n <= tiers.len(),
    ensures
        match bank::first_tier(tiers, slabs, n) {
            Some(i) => {
                &&& 0 <= i < n
                &&& tiers[i]@.contains_key(slabs[0].offset) && tiers[i]@.contains_key(
                    slabs[1].offset,
                ) && tiers[i]@.contains_key(slabs[2].offset)
                &&& forall|j: int|
                    0 <= j < i ==> !bank::tier_holds((#[trigger] tiers[j])@, slabs)
            },
            None => forall|j: int|
                0 <= j < n ==> !bank::tier_holds((#[trigger] tiers[j])@, slabs),
        },
        forall|j: int|
            0 <= j < n ==> (bank::tier_holds((#[trigger] tiers[j])@, slabs) <==> forall|k: int|
                0 <= k < 3 ==> tiers[j]@.contains_key((#[trigger] slabs[k]).offset)),
    decreases n,
{
    if n > 0 {
        first_tiers_serve(tiers, slabs, n - 1);
    }
    assert forall|j: int| 0 <= j < n implies (bank::tier_holds((#[trigger] tiers[j])@, slabs)
        <==> forall|k: int|
        0 <= k < 3 ==> tiers[j]@.contains_key((#[trigger] slabs[k]).offset)) by {
        if forall|k: int| 0 <= k < 3 ==> tiers[j]@.contains_key((#[trigger] slabs[k]).offset) {
            assert(tiers[j]@.contains_key(slabs[0].offset));
            assert(tiers[j]@.contains_key(slabs[1].offset));
            assert(tiers[j]@.contains_key(slabs[2].offset));
        }
    }
}

/// A layer's expert tensors lie where the header says, with a slab of as
/// many rows as the second dimension for each expert.
pub proof fn layouts_follow_the_header(h: &Header, il: nat, part: Seq<char>, n: u32)
    requires
        loading::part_ok(h, il, part, n),
    ensures
        ({
            let t = h.tensor_named(header::blk_name(il, part));
            match loading::experts(h, il, part) {
                Some(x) => {
                    &&& t is Some && tensors::quant_of(t->0.ty) == Some(x.quant)
                    &&& x.abs_offset == h.data_offset + t->0.offset
                    &&& Some(x.row_bytes) == t->0.row_bytes
                    &&& x.expert_bytes == x.row_bytes * t->0.dims@[1]
                    &&& t->0.dims@[2] == n
                },
                None => t is None || tensors::quant_of(t->0.ty) is None,
            }
        }),
{
}

/// What keeps a layer's experts from being laid out is told of the first
/// part that is not there or that no kernel reads; a layer without such a
/// part has nothing against it.
pub proof fn the_first_bad_part_is_told(h: &Header, arch: Arch, il: nat)
    ensures
        ({
            let f = loading::bank_fault(h, arch, il);
            let fused = h.tensor_named(header::blk_name(il, "ffn_gate_up_exps.weight"@)) is Some;
            let gate = if fused {
                "ffn_gate_up_exps.weight"@
            } else {
                "ffn_gate_exps.weight"@
            };
            let up = if fused {
                "ffn_gate_up_exps.weight"@
            } else {
                "ffn_up_exps.weight"@
            };
            let a = loading::experts(h, il, gate) is Some;
            let b = loading::experts(h, il, up) is Some;
            let c = loading::experts(h, il, "ffn_down_exps.weight"@) is Some;
            let shared = loading::experts(h, il, "ffn_gate_shexp.weight"@) is Some
                && loading::experts(h, il, "ffn_up_shexp.weight"@) is Some && loading::experts(
                h,
                il,
                "ffn_down_shexp.weight"@,
            ) is Some;
            &&& f is None <==> a && b && c && (arch == Arch::Inkling ==> shared)
            &&& !a ==> f == loading::part_fault(h, il, gate)
            &&& a && !b ==> f == loading::part_fault(h, il, up)
            &&& a && b && !c ==> f == loading::part_fault(h, il, "ffn_down_exps.weight"@)
            &&& f matches Some(LoadFault::Missing(n)) ==> h.tensor_named(n) is None
            &&& f matches Some(LoadFault::Unsupported(n)) ==> h.tensor_named(n) is Some
                && tensors::quant_of(h.tensor_named(n)->0.ty) is None
        }),
{
}

/// The slabs of the draft layer fill its pool: tensor after tensor, expert
/// after expert, each behind the one before it, and the last ends the pool.
pub proof fn draft_slabs_fill_their_pool(b: &ExpertBank, k: int, e: int)
    requires
        0 <= k < 3,
        0 <= e < b.n_expert,
        loading::draft_bytes(b) <= u64::MAX,
        b.wf(),
    ensures
        ({
            let x = loading::resident_slab(b, k, e);
            let t = if k == 0 {
                b.gate
            } else if k == 1 {
                b.up
            } else {
                b.down
            };
            &&& x.offset == t.abs_offset + e * t.expert_bytes && x.len == t.expert_bytes
            &&& k == 0 && e == 0 ==> x.at == 0
            &&& e + 1 < b.n_expert ==> loading::resident_slab(b, k, e + 1).at == x.at + x.len
            &&& e + 1 == b.n_expert && k < 2 ==> loading::resident_slab(b, k + 1, 0).at == x.at
                + x.len
            &&& e + 1 == b.n_expert && k == 2 ==> x.at + x.len == loading::draft_bytes(b)
            &&& x.at + x.len <= loading::draft_bytes(b)
        }),
{
    let n = b.n_expert as int;
    let g = b.gate.expert_bytes as int;
    let u = b.up.expert_bytes as int;
    let d = b.down.expert_bytes as int;
    tensors::lemma_slab_bound(b.gate, e, b.n_expert as nat);
    tensors::lemma_slab_bound(b.up, e, b.n_expert as nat);
    tensors::lemma_slab_bound(b.down, e, b.n_expert as nat);
    reveal_with_fuel(loading::draft_base, 4);
    assert((g + u + d) * n == g * n + u * n + d * n) by (nonlinear_arith);
    let t = loading::bank_tensor(b, k).expert_bytes as int;
    assert(0 <= e * t && (e + 1) * t == e * t + t && (e + 1) * t <= n * t && n * t == t * n)
        by (nonlinear_arith)
        requires
            0 <= e < n,
            0 <= t,
    ;
    assert(0 <= g * n && 0 <= u * n && 0 <= d * n) by (nonlinear_arith)
        requires
            0 <= g,
            0 <= u,
            0 <= d,
            0 <= n,
    ;
    assert(0 * t == 0 && 0 * g == 0 && 0 * u == 0 && 0 * d == 0) by (nonlinear_arith);
    if e + 1 == n {
        assert((e + 1) * t == t * n) by (nonlinear_arith)
            requires
                e + 1 == n,
        ;
    }
}

/// The number of a name ends before its first dot.
pub proof fn numbers_end_at_the_dot(s: Seq<char>, n: int)
    requires
        0 <= n <= s.len(),
        forall|i: int| 0 <= i < n ==> s[i] != '.',
    ensures
        ({
            let p = loading::before_dot(s, n);
            &&& p.len() <= s.len() && p == s.take(p.len() as int)
            &&& forall|i: int| 0 <= i < p.len() ==> p[i] != '.'
            &&& p.len() < s.len() ==> s[p.len() as int] == '.'
        }),
    decreases s.len() - n,
{
    if n < s.len() && s[n] != '.' {
        numbers_end_at_the_dot(s, n + 1);
    }
}

/// Tensors that nothing read are told of in order: those outside the layers
/// of the file, and those of the layers that run.
pub proof fn unread_names_are_told_in_order(names: Seq<String>, n_exec: u32, n: int)
    requires
        0 <= n <= names.len(),
    ensures
        ({
            let t = loading::skipped_in(names, n_exec, n);
            &&& t.len() <= n
            &&& forall|i: int|
                0 <= i < n && loading::is_skipped((#[trigger] names[i])@, n_exec) ==> t.contains(
                    names[i]@,
                )
            &&& forall|k: int|
                0 <= k < t.len() ==> loading::is_skipped(#[trigger] t[k], n_exec) && exists|i: int|
                    0 <= i < n && (#[trigger] names[i])@ == t[k]
        }),
    decreases n,
{
    if n > 0 {
        unread_names_are_told_in_order(names, n_exec, n - 1);
        let a = loading::skipped_in(names, n_exec, n - 1);
        let t = loading::skipped_in(names, n_exec, n);
        assert forall|i: int|
            0 <= i < n && loading::is_skipped((#[trigger] names[i])@, n_exec) implies t.contains(
            names[i]@,
        ) by {
            if i < n - 1 {
                assert(a.contains(names[i]@));
                let k = choose|k: int| 0 <= k < a.len() && a[k] == names[i]@;
                assert(t[k] == names[i]@);
            } else {
                assert(t[a.len() as int] == names[i]@);
            }
        }
        assert forall|k: int| 0 <= k < t.len() implies loading::is_skipped(#[trigger] t[k], n_exec)
            && exists|i: int| 0 <= i < n && (#[trigger] names[i])@ == t[k] by {
            if k < a.len() {
                assert(t[k] == a[k]);
                let i = choose|i: int| 0 <= i < n - 1 && (#[trigger] names[i])@ == a[k];
                assert(names[i]@ == t[k]);
            } else {
                assert(names[n - 1]@ == t[k]);
            }
        }
    }
}

/// A bank is laid out from the header: gate and up from one tensor or from
/// two; in one tensor the rows of up follow those of gate.
pub proof fn banks_follow_the_header(b: &ExpertBank, h: &Header, s: &Shape, arch: Arch, il: nat)
    requires
        loading::is_bank(b, h, s, arch, il),
    ensures
        ({
            let fused = h.tensor_named(header::blk_name(il, "ffn_gate_up_exps.weight"@)) is Some;
            &&& b.n_expert == s.n_expert
            &&& fused ==> b.gate == b.up && Some(b.gate) == loading::experts(
                h,
                il,
                "ffn_gate_up_exps.weight"@,
            ) && b.fused_up_off == b.gate.row_bytes * s.n_ff_exp
            &&& !fused ==> Some(b.gate) == loading::experts(h, il, "ffn_gate_exps.weight"@) && Some(
                b.up,
            ) == loading::experts(h, il, "ffn_up_exps.weight"@) && b.fused_up_off == 0
            &&& Some(b.down) == loading::experts(h, il, "ffn_down_exps.weight"@)
            &&& b.sink is Some ==> arch == Arch::Inkling && b.n_sink == s.n_shexp_sink && Some(
                b.sink->0@[0],
            ) == loading::experts(h, il, "ffn_gate_shexp.weight"@) && Some(b.sink->0@[1])
                == loading::experts(h, il, "ffn_up_shexp.weight"@) && Some(b.sink->0@[2])
                == loading::experts(h, il, "ffn_down_shexp.weight"@)
        }),
{
}

} // verus!
