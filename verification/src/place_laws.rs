//! Where caches and slabs are, and what is kept of memory: cards of cache
//! rows, experts at hand, the host cache's size.

use vstd::prelude::*;

use crate::bank;
use crate::bank::TierMap;
use crate::capacity;
use crate::kv;
use crate::kv::{CardMap, LatFormat};
use crate::prefetch;
use crate::shape::{Family, Shape};
use crate::store;
use crate::store::{CacheEntry, Read};
use crate::text;

verus! {

/// Where whole layers are on several cards a layer's cache is on its
/// layer's; else where attention is spread, on its attention's; the primary
/// stands in for what no list names. Else all caches are on one card.
pub proof fn caches_follow_their_layers(c: &CardMap, i: int)
    requires
        0 <= i,
    ensures
        ({
            let whole = exists|k: int|
                0 <= k < c.layer_dev@.len() && #[trigger] c.layer_dev@[k] != c.primary;
            let spread = exists|k: int|
                1 <= k < c.attn_layer_dev@.len() && #[trigger] c.attn_layer_dev@[k]
                    != c.attn_layer_dev@[k - 1];
            &&& whole && i < c.layer_dev@.len() ==> c.slot_card(i) == c.layer_dev@[i]
            &&& whole && i >= c.layer_dev@.len() ==> c.slot_card(i) == c.primary
            &&& !whole && spread && i < c.attn_layer_dev@.len() ==> c.slot_card(i)
                == c.attn_layer_dev@[i]
            &&& !whole && spread && i >= c.attn_layer_dev@.len() ==> c.slot_card(i) == c.primary
            &&& !whole && !spread && c.attn_dev is Some ==> c.slot_card(i) == c.attn_dev->0
            &&& !whole && !spread && c.attn_dev is None ==> c.slot_card(i) == c.primary
        }),
{
}

/// A selection key takes a byte an element and four of scale beside 8-bit
/// latent rows, and two bytes an element otherwise.
pub proof fn selection_keys_are_small(n: int)
    ensures
        kv::idx_row_of(LatFormat::Fp8, n) == n + 4,
        kv::idx_row_of(LatFormat::F32, n) == 2 * n,
        kv::idx_row_of(LatFormat::Fp16, n) == 2 * n,
{
}

/// Attention puts out as many rows as there are heads, of the head's width
/// or, in the latent families, of the value's. Three families and any short
/// convolution carry state that no cut of cached rows undoes.
pub proof fn families_differ_in_output_and_state(s: &Shape)
    ensures
        s.family == Family::Mla || s.family == Family::K3 ==> s.out_width() == s.n_head
            * s.value_mla,
        s.family == Family::Gqa || s.family == Family::Dsv4 || s.family == Family::Qwen35
            ==> s.out_width() == s.n_head * s.head_dim,
        s.family == Family::Dsv4 || s.family == Family::Qwen35 || s.family == Family::K3
            ==> s.is_recurrent(),
        s.family == Family::Gqa || s.family == Family::Mla ==> (s.is_recurrent() <==> s.sconv_k > 1),
{
}

/// The host cache's size: what is set, where that is a number; else the
/// ceiling, less where memory leaves less beside six gibibytes, and four at
/// least. Without a report of memory the ceiling stands.
pub proof fn host_caches_leave_memory(setting: Option<Seq<char>>, offload: bool, report: Option<
    Seq<char>,
>)
    ensures
        ({
            let n = capacity::cache_gb_of(setting, offload, report);
            let given = match setting {
                Some(v) => text::number_upto(v, usize::MAX as nat),
                None => None,
            };
            let kb = match report {
                Some(r) => capacity::available_kb(r),
                None => None,
            };
            let most = if offload {
                22int
            } else {
                12
            };
            let gib = kb->0 as int / 0x10_0000;
            &&& given is Some ==> n == given->0
            &&& given is None && kb is None ==> n == most
            &&& given is None && kb is Some ==> 4 <= n <= most
            &&& given is None && kb is Some && gib >= most + 6 ==> n == most
            &&& given is None && kb is Some && 10 <= gib < most + 6 ==> n + 6 == gib
            &&& given is None && kb is Some && gib < 10 ==> n == 4
        }),
{
}

/// What is known of an expert before a resolve: the first tier that holds
/// it whole, unless it is routed and resident with the draft layer; and
/// whether any or all of its slabs are cached.
pub proof fn facts_tell_where_slabs_are(
    slabs: Seq<Read>,
    is_sink: bool,
    ts: Seq<TierMap>,
    mtp: Map<u64, usize>,
    dev: Map<u64, u32>,
    host: Set<u64>,
)
    requires
        slabs.len() == 3,
        ts.len() <= usize::MAX,
    ensures
        ({
            let f = bank::facts_of(slabs, is_sink, ts, mtp, dev, host);
            let drafted = mtp.contains_key(slabs[0].offset);
            &&& f.mtp <==> drafted
            &&& drafted && !is_sink ==> f.tier is None
            &&& !drafted || is_sink ==> (f.tier is Some <==> bank::first_tier(
                ts,
                slabs,
                ts.len() as int,
            ) is Some)
            &&& f.tier is Some ==> bank::first_tier(ts, slabs, ts.len() as int) is Some
            &&& f.dev_any <==> exists|k: int|
                0 <= k < 3 && dev.contains_key((#[trigger] slabs[k]).offset)
            &&& f.host_any <==> exists|k: int|
                0 <= k < 3 && host.contains((#[trigger] slabs[k]).offset)
            &&& f.host_all <==> forall|k: int|
                0 <= k < 3 ==> host.contains((#[trigger] slabs[k]).offset)
        }),
{
    let f = bank::facts_of(slabs, is_sink, ts, mtp, dev, host);
    if f.host_all {
        assert forall|k: int| 0 <= k < 3 implies host.contains((#[trigger] slabs[k]).offset) by {
            assert(k == 0 || k == 1 || k == 2);
        }
    }
    if exists|k: int| 0 <= k < 3 && dev.contains_key((#[trigger] slabs[k]).offset) {
        let k = choose|k: int| 0 <= k < 3 && dev.contains_key((#[trigger] slabs[k]).offset);
        assert(k == 0 || k == 1 || k == 2);
    }
    if exists|k: int| 0 <= k < 3 && host.contains((#[trigger] slabs[k]).offset) {
        let k = choose|k: int| 0 <= k < 3 && host.contains((#[trigger] slabs[k]).offset);
        assert(k == 0 || k == 1 || k == 2);
    }
}

/// What is fetched ahead of a layer are those slabs that neither the host,
/// nor the card's cache, nor a tier has.
pub proof fn only_missing_slabs_are_fetched<S>(
    acc: Seq<Read>,
    slabs: Seq<Read>,
    host: Map<u64, CacheEntry<S>>,
    dev: Map<u64, u32>,
    ts: Seq<TierMap>,
)
    ensures
        ({
            let v = prefetch::with_missing(acc, slabs, host, dev, ts);
            &&& forall|i: int|
                0 <= i < slabs.len() && !host.contains_key((#[trigger] slabs[i]).offset)
                    && !dev.contains_key(slabs[i].offset) && !prefetch::in_a_tier(
                    ts,
                    slabs[i].offset,
                ) ==> v.contains(slabs[i])
            &&& forall|r: Read| #[trigger]
                v.contains(r) ==> acc.contains(r) || (slabs.contains(r) && !host.contains_key(
                    r.offset,
                ) && !dev.contains_key(r.offset) && !prefetch::in_a_tier(ts, r.offset))
        }),
    decreases slabs.len(),
{
    if slabs.len() > 0 {
        let rest = slabs.drop_last();
        let last = slabs.last();
        only_missing_slabs_are_fetched(acc, rest, host, dev, ts);
        let a = prefetch::with_missing(acc, rest, host, dev, ts);
        let v = prefetch::with_missing(acc, slabs, host, dev, ts);
        assert forall|i: int|
            0 <= i < slabs.len() && !host.contains_key((#[trigger] slabs[i]).offset)
                && !dev.contains_key(slabs[i].offset) && !prefetch::in_a_tier(
                ts,
                slabs[i].offset,
            ) implies v.contains(slabs[i]) by {
            if i < rest.len() {
                assert(rest[i] == slabs[i]);
                assert(a.contains(rest[i]));
                let k = choose|k: int| 0 <= k < a.len() && a[k] == slabs[i];
                assert(v[k] == slabs[i]);
            } else {
                assert(v[a.len() as int] == slabs[i]);
            }
        }
        assert forall|r: Read| #[trigger] v.contains(r) implies acc.contains(r) || (slabs.contains(
            r,
        ) && !host.contains_key(r.offset) && !dev.contains_key(r.offset) && !prefetch::in_a_tier(
            ts,
            r.offset,
        )) by {
            let k = choose|k: int| 0 <= k < v.len() && v[k] == r;
            if k < a.len() {
                assert(a[k] == r);
                assert(a.contains(r));
                if !acc.contains(r) {
                    let j = choose|j: int| 0 <= j < rest.len() && rest[j] == r;
                    assert(slabs[j] == r);
                }
            } else {
                assert(slabs[slabs.len() - 1] == r);
            }
        }
    }
}

/// A slab is copied ahead where the host alone has it, and once.
pub proof fn only_host_slabs_are_copied<S>(
    acc: Seq<Read>,
    off: u64,
    host: Map<u64, CacheEntry<S>>,
    dev: Map<u64, u32>,
    ts: Seq<TierMap>,
    mtp: Map<u64, usize>,
)
    ensures
        prefetch::copy_worthy(acc, off, host, dev, ts, mtp) <==> host.contains_key(off)
            && !dev.contains_key(off) && !mtp.contains_key(off) && (forall|i: int|
            0 <= i < ts.len() ==> !(#[trigger] ts[i])@.contains_key(off)) && (forall|i: int|
            0 <= i < acc.len() ==> (#[trigger] acc[i]).offset != off),
{
    let o = store::offsets(acc);
    if o.contains(off) {
        let k = choose|k: int| 0 <= k < o.len() && o[k] == off;
        assert(acc[k].offset == off);
    }
    if exists|i: int| 0 <= i < acc.len() && (#[trigger] acc[i]).offset == off {
        let k = choose|i: int| 0 <= i < acc.len() && (#[trigger] acc[i]).offset == off;
        assert(o[k] == off);
    }
}

} // verus!
