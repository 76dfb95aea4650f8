//! What the geometry of a layer says of its header.

use vstd::prelude::*;

use crate::geom;
use crate::geom::Geom;
use crate::header::{Header, MetaItem};
use crate::shape::Shape;
use crate::shape_reads;

verus! {

/// Layers of this header differ.
pub open spec fn differs(h: &Header) -> bool {
    shape_reads::named(h, "inkling"@) || shape_reads::named(h, "gemma4"@) || shape_reads::named(
        h,
        "laguna"@,
    ) || shape_reads::named(h, "gpt-oss"@)
}

/// The header's pattern marks layer `il` as sliding.
pub open spec fn marked(h: &Header, il: int, numbers: bool) -> bool {
    let l = h.list("attention.sliding_window_pattern"@);
    &&& l is Some
    &&& il < l->0.len()
    &&& l->0[il].flag == Some(true) || (numbers && l->0[il].flag is None && l->0[il].num is Some
        && l->0[il].num->0 != 0)
}

/// A count for one layer: its place in the numbers under a key, or `other`.
pub open spec fn counted(h: &Header, key: Seq<char>, il: int, n: u32, other: u32) -> bool {
    let v = geom::nums_of(h, key);
    &&& 0 <= il < v.len() ==> n == v[il] % 0x1_0000_0000
    &&& il >= v.len() ==> n == other
}

/// What a layer with relative positions says.
pub open spec fn reads_relative(h: &Header, s: Shape, il: int, g: Geom) -> bool {
    &&& g.n_head_q == 0 && g.theta == 0 && !g.factors && g.rot == 0 && g.head_dim == s.head_dim
    &&& counted(h, "attention.head_count_kv"@, il, g.n_head_kv, s.n_head_kv)
    &&& marked(h, il, true) ==> shape_reads::follows(
        g.window,
        h.num32("attention.sliding_window"@),
        512,
    )
    &&& !marked(h, il, true) ==> g.window == 0
}

/// What a layer with two head widths says: the sliding ones have their own
/// width and base, the others the factor table.
pub open spec fn reads_two_widths(h: &Header, il: int, g: Geom) -> bool {
    let swa = marked(h, il, false);
    let full = h.num32("attention.key_length"@);
    let own = h.num32("attention.key_length_swa"@);
    &&& g.n_head_q == 0 && g.rot == 0 && (g.factors <==> !swa)
    &&& counted(h, "attention.head_count_kv"@, il, g.n_head_kv, 1)
    &&& swa ==> shape_reads::follows(g.window, h.num32("attention.sliding_window"@), 0)
    &&& !swa ==> g.window == 0
    &&& swa && own is Some ==> g.head_dim == own->0
    &&& !(swa && own is Some) ==> shape_reads::follows(g.head_dim, full, 512)
    &&& swa ==> shape_reads::follows(g.theta, h.bits("rope.freq_base_swa"@), 0x461c_4000)
    &&& !swa ==> shape_reads::follows(g.theta, h.bits("rope.freq_base"@), 0x4974_2400)
}

/// What a layer with two head counts says: those with the fewest heads see
/// everything.
pub open spec fn reads_two_counts(h: &Header, s: Shape, il: int, g: Geom) -> bool {
    let heads = geom::nums_of(h, "attention.head_count"@);
    let own = if 0 <= il < heads.len() {
        heads[il]
    } else {
        s.n_head as u64
    };
    let full = if heads.len() == 0 {
        own == s.n_head
    } else {
        (exists|k: int| 0 <= k < heads.len() && heads[k] == own) && forall|k: int|
            0 <= k < heads.len() ==> own <= #[trigger] heads[k]
    };
    let base = h.bits("rope.freq_base"@);
    let near = h.bits("rope.freq_base_swa"@);
    &&& g.head_dim == s.head_dim && !g.factors
    &&& g.n_head_q == own % 0x1_0000_0000
    &&& counted(h, "attention.head_count_kv"@, il, g.n_head_kv, s.n_head_kv)
    &&& full ==> g.window == 0
    &&& !full ==> shape_reads::follows(g.window, h.num32("attention.sliding_window"@), 512)
    &&& !full && near is Some ==> g.theta == near->0
    &&& full || near is None ==> shape_reads::follows(g.theta, base, 0x4b18_9680)
    &&& full ==> shape_reads::follows(g.rot, h.num32("rope.dimension_count"@), s.head_dim)
    &&& !full ==> shape_reads::follows(g.rot, h.num32("rope.dimension_count_swa"@), s.head_dim)
}

/// What a layer of alternating windows says: even layers slide.
pub open spec fn reads_alternating(h: &Header, s: Shape, il: int, g: Geom) -> bool {
    &&& g.n_head_q == s.n_head && g.n_head_kv == s.n_head_kv && g.head_dim == s.head_dim
    &&& g.theta == s.rope_freq_base && !g.factors && g.rot == s.head_dim
    &&& il % 2 == 0 ==> shape_reads::follows(g.window, h.num32("attention.sliding_window"@), 128)
    &&& il % 2 == 1 ==> g.window == 0
}

/// Everything that a layer's geometry says of its header.
pub open spec fn reads(h: &Header, s: Shape, il: int, g: Geom) -> bool {
    &&& shape_reads::named(h, "inkling"@) ==> reads_relative(h, s, il, g)
    &&& shape_reads::named(h, "gemma4"@) ==> reads_two_widths(h, il, g)
    &&& shape_reads::named(h, "laguna"@) ==> reads_two_counts(h, s, il, g)
    &&& shape_reads::named(h, "gpt-oss"@) ==> reads_alternating(h, s, il, g)
}

proof fn lemma_smallest(v: Seq<u64>, n: int, d: u64)
    requires
        0 <= n <= v.len(),
    ensures
        n == 0 ==> geom::min_or(v, n, d) == d,
        n > 0 ==> (exists|k: int| 0 <= k < n && v[k] == geom::min_or(v, n, d)),
        forall|k: int| 0 <= k < n ==> geom::min_or(v, n, d) <= #[trigger] v[k],
    decreases n,
{
    if n > 1 {
        lemma_smallest(v, n - 1, d);
        let m = geom::min_or(v, n - 1, d);
        let k = choose|k: int| 0 <= k < n - 1 && v[k] == m;
        if v[n - 1] < m {
            assert(v[n - 1] == geom::min_or(v, n, d));
        } else {
            assert(v[k] == geom::min_or(v, n, d));
        }
    } else if n == 1 {
        assert(v[0] == geom::min_or(v, n, d));
    }
}

/// A header of an architecture whose layers differ gives a geometry for each
/// layer that runs, and that says what the header says of the layer; any
/// other header gives none.
pub proof fn geometry_reads_its_header(h: &Header, s: Shape)
    ensures
        !differs(h) ==> geom::geoms_of(h, &s).len() == 0,
        differs(h) ==> geom::geoms_of(h, &s).len() == s.n_exec_layer,
        forall|il: int|
            0 <= il < geom::geoms_of(h, &s).len() ==> reads(
                h,
                s,
                il,
                #[trigger] geom::geoms_of(h, &s)[il],
            ),
{
    shape_reads::names_tell_architectures(h);
    let heads = geom::nums_of(h, "attention.head_count"@);
    lemma_smallest(heads, heads.len() as int, s.n_head as u64);
    assert forall|il: int| 0 <= il < geom::geoms_of(h, &s).len() implies reads(
        h,
        s,
        il,
        #[trigger] geom::geoms_of(h, &s)[il],
    ) by {
        let g = geom::geoms_of(h, &s)[il];
        if shape_reads::named(h, "laguna"@) {
            let own = if 0 <= il < heads.len() {
                heads[il]
            } else {
                s.n_head as u64
            };
            let least = geom::min_or(heads, heads.len() as int, s.n_head as u64);
            if heads.len() > 0 {
                let k = choose|k: int| 0 <= k < heads.len() && heads[k] == least;
                assert(heads[k] == least);
                if own == least {
                    assert(heads[k] == own);
                }
            }
            assert(reads_two_counts(h, s, il, g));
        }
    }
}

/// The numbers of a list are its items that are numbers, in order.
pub proof fn numbers_keep_their_order(l: Seq<MetaItem>, n: int)
    requires
        0 <= n <= l.len(),
    ensures
        geom::nums_in(l, n).len() <= n,
        (forall|i: int| 0 <= i < n ==> (#[trigger] l[i]).num is Some) ==> geom::nums_in(l, n).len()
            == n && forall|i: int| 0 <= i < n ==> Some(geom::nums_in(l, n)[i]) == (#[trigger] l[i]).num,
        forall|i: int|
            0 <= i < n && (#[trigger] l[i]).num is Some ==> geom::nums_in(l, n).contains(
                l[i].num->0,
            ),
        forall|k: int|
            0 <= k < geom::nums_in(l, n).len() ==> exists|i: int|
                0 <= i < n && (#[trigger] l[i]).num == Some(#[trigger] geom::nums_in(l, n)[k]),
    decreases n,
{
    if n > 0 {
        numbers_keep_their_order(l, n - 1);
        let a = geom::nums_in(l, n - 1);
        let b = geom::nums_in(l, n);
        assert forall|i: int| 0 <= i < n && (#[trigger] l[i]).num is Some implies b.contains(
            l[i].num->0,
        ) by {
            if i < n - 1 {
                assert(a.contains(l[i].num->0));
                let k = choose|k: int| 0 <= k < a.len() && a[k] == l[i].num->0;
                assert(b[k] == l[i].num->0);
            } else {
                assert(b[a.len() as int] == l[i].num->0);
            }
        }
        assert forall|k: int| 0 <= k < b.len() implies exists|i: int|
            0 <= i < n && (#[trigger] l[i]).num == Some(#[trigger] b[k]) by {
            if k < a.len() {
                assert(b[k] == a[k]);
                let i = choose|i: int| 0 <= i < n - 1 && (#[trigger] l[i]).num == Some(a[k]);
                assert(l[i].num == Some(b[k]));
            } else {
                assert(l[n - 1].num == Some(b[k]));
            }
        }
        if forall|i: int| 0 <= i < n ==> (#[trigger] l[i]).num is Some {
            assert(l[n - 1].num is Some);
            assert forall|i: int| 0 <= i < n implies Some(b[i]) == (#[trigger] l[i]).num by {
                if i < n - 1 {
                    assert(Some(a[i]) == l[i].num);
                }
            }
        }
    }
}

/// From the seventh layer on one in four selects for itself; before that,
/// and in between, only leading dense layers do.
pub proof fn one_in_four_selects(il: int, n_leading_dense: int)
    requires
        0 <= il,
    ensures
        il < n_leading_dense ==> geom::full_indexer(il, n_leading_dense),
        n_leading_dense <= il < 6 ==> !geom::full_indexer(il, n_leading_dense),
        geom::full_indexer(6, n_leading_dense),
        il >= 6 && il >= n_leading_dense ==> geom::full_indexer(il + 4, n_leading_dense)
            == geom::full_indexer(il, n_leading_dense),
        il >= 6 && il >= n_leading_dense && geom::full_indexer(il, n_leading_dense)
            ==> !geom::full_indexer(il + 1, n_leading_dense) && !geom::full_indexer(
            il + 2,
            n_leading_dense,
        ) && !geom::full_indexer(il + 3, n_leading_dense),
{
}

} // verus!
