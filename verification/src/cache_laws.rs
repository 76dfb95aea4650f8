//! Small steps of caches and of what is parsed and saved: counts, samples,
//! numbers, and sizes.

use vstd::prelude::*;

use crate::dev_cache;
use crate::dev_cache::{PoolState, NO_GROUP};
use crate::header;
use crate::header::Header;
use crate::hotlist;
use crate::hybrid;
use crate::hybrid::GraphFacts;
use crate::kv;
use crate::kv::{KvChoice, KvFormat, LatFormat};
use crate::prefix;
use crate::stats;
use crate::stats::Prof;
use crate::store;
use crate::store::{CacheEntry, Ranked};
use crate::text;
use crate::words;

verus! {

/// One more request counts one more for its slab, the length stays the
/// first one's, and no other count moves.
pub proof fn requests_count_once(touch: Map<u64, (u64, u64)>, off: u64, len: u64, other: u64)
    requires
        dev_cache::heat_of(touch, off) < u64::MAX,
        other != off,
    ensures
        ({
            let t = dev_cache::touched(touch, off, len);
            &&& dev_cache::heat_of(t, off) == dev_cache::heat_of(touch, off) + 1
            &&& t.contains_key(off)
            &&& t[off].1 == (if touch.contains_key(off) {
                touch[off].1
            } else {
                len
            })
            &&& dev_cache::heat_of(t, other) == dev_cache::heat_of(touch, other)
            &&& t.contains_key(other) <==> touch.contains_key(other)
        }),
        !touch.contains_key(off) ==> dev_cache::heat_of(touch, off) == 0,
{
}

/// Placing a slab takes the last free slot, maps the slab to it, writes the
/// slot's record, and touches no other slot.
pub proof fn slabs_take_the_last_free_slot(p: PoolState, off: u64, freq: u64, group: u32)
    requires
        p.free.len() > 0,
        p.free.last() < p.meta.len(),
    ensures
        ({
            let q = dev_cache::placed(p, off, freq, group);
            let slot = p.free[p.free.len() - 1];
            &&& q.map.contains_key(off) && q.map[off] == slot
            &&& q.meta[slot as int].offset == off && q.meta[slot as int].freq == freq
                && q.meta[slot as int].group == group
            &&& q.free == p.free.take(p.free.len() - 1)
            &&& q.meta.len() == p.meta.len() && forall|k: int|
                0 <= k < p.meta.len() && k != slot ==> #[trigger] q.meta[k] == p.meta[k]
            &&& forall|o: u64|
                o != off ==> (#[trigger] q.map.contains_key(o) <==> p.map.contains_key(o))
                    && q.map[o] == p.map[o]
            &&& group == NO_GROUP ==> q.ungrouped == p.ungrouped + 1
            &&& group != NO_GROUP ==> q.ungrouped == p.ungrouped
        }),
{
    assert(p.free.drop_last() =~= p.free.take(p.free.len() - 1));
}

/// An entry that is used again has one more use, at this tick, and is
/// otherwise what it was.
pub proof fn uses_are_counted<S>(e: CacheEntry<S>, tick: u64)
    requires
        e.freq < u64::MAX,
    ensures
        store::used_again(e, tick).freq == e.freq + 1,
        store::used_again(e, tick).tick == tick,
        store::used_again(e, tick).slab == e.slab,
        store::used_again(e, tick).bytes == e.bytes,
{
}

/// Of two entries the less used is colder, and of equally used ones the one
/// that was used longer ago.
pub proof fn colder_is_less_used(a: Ranked, b: Ranked)
    ensures
        a.freq < b.freq ==> store::colder(a, b) && !store::colder(b, a),
        a.freq == b.freq && a.tick < b.tick ==> store::colder(a, b) && !store::colder(b, a),
        a.freq == b.freq && a.tick == b.tick ==> !store::colder(a, b),
{
}

/// What eviction samples is every entry of a small cache, and every
/// sixty-fourth part of a large one.
pub proof fn samples_are_spread(n: nat)
    ensures
        store::stride(n) >= 1,
        n < 128 ==> store::stride(n) == 1,
        n >= 64 ==> 64 * store::stride(n) <= n < 64 * (store::stride(n) + 1),
{
}

/// No sampled entry is colder than the one that is found.
pub proof fn the_coldest_sample_is_found(e: Seq<Ranked>, step: nat, k: nat)
    requires
        step > 0,
    ensures
        e.len() > 0 && k > 0 ==> store::coldest_sample(e, step, k) is Some,
        store::coldest_sample(e, step, k) matches Some(b) ==> 0 <= b < e.len() && forall|j: nat|
            j < k && #[trigger] (j * step) < e.len() ==> !store::colder(e[(j * step) as int], e[b]),
    decreases k,
{
    if k > 0 {
        the_coldest_sample_is_found(e, step, (k - 1) as nat);
        let i = (k - 1) * step;
        assert(0 <= i) by (nonlinear_arith)
            requires
                k > 0,
                i == (k - 1) * step,
        ;
        if k == 1 {
            assert(0 * step == 0) by (nonlinear_arith);
            assert(store::coldest_sample(e, step, 0) is None);
        }
    }
}

/// A whole number is read back from its digits, with either sign or none;
/// text with anything else in it is no number.
pub proof fn whole_numbers_read_back(n: nat, s: Seq<char>)
    ensures
        words::integer_in(text::digits(n)) == Some(n as int),
        words::integer_in(seq!['+'] + text::digits(n)) == Some(n as int),
        words::integer_in(seq!['-'] + text::digits(n)) == Some(-(n as int)),
        words::integer_in(Seq::empty()) is None,
        s.len() > 0 && s[0] != '+' && s[0] != '-' && !text::is_digit(s[0]) ==> words::integer_in(
            s,
        ) is None,
        s.len() > 1 && !text::is_digit(s[s.len() - 1]) ==> words::integer_in(s) is None,
{
    let d = text::digits(n);
    text::decimal_round_trip(n);
    text::lemma_digits_are_digits(n);
    assert(text::is_digit(d[0]));
    assert((seq!['+'] + d).drop_first() =~= d);
    assert((seq!['-'] + d).drop_first() =~= d);
    assert(text::number_in(d) == Some(n));
    assert(text::unsigned_body(d) == d);
    if s.len() > 1 && !text::is_digit(s[s.len() - 1]) {
        assert(s.drop_first()[s.len() - 2] == s[s.len() - 1]);
        if s[0] == '-' || s[0] == '+' {
            assert(!text::all_digits(s.drop_first()));
        } else {
            assert(!text::all_digits(s));
        }
    }
}

/// What is left of a trimmed end is the text up to its last character that
/// is no white space.
pub proof fn trimming_cuts_white_ends(s: Seq<char>)
    ensures
        ({
            let t = words::trim_end(s);
            &&& t.len() <= s.len() && t == s.take(t.len() as int)
            &&& t.len() > 0 ==> !words::is_white(t[t.len() - 1])
            &&& forall|i: int| t.len() <= i < s.len() ==> words::is_white(#[trigger] s[i])
        }),
    decreases s.len(),
{
    if s.len() > 0 && words::is_white(s.last()) {
        trimming_cuts_white_ends(s.drop_last());
        let t = words::trim_end(s);
        assert(s.drop_last().take(t.len() as int) =~= s.take(t.len() as int));
        assert forall|i: int| t.len() <= i < s.len() implies words::is_white(#[trigger] s[i]) by {
            if i < s.len() - 1 {
                assert(s.drop_last()[i] == s[i]);
            }
        }
    } else {
        assert(s.take(s.len() as int) =~= s);
    }
}

/// A layer replays inside a graph where nothing is captured, its
/// feed-forward is resident, and it mixes by the delta rule, or attends on
/// two halves over an exact cache of a short context.
pub proof fn graphs_hold_steady_layers(f: GraphFacts)
    ensures
        hybrid::is_graphable(f) <==> f.resident_ffn && !f.drafting && (f.has_gdn || (f.has_attn
            && f.two_cards && f.split_attn && f.exact_kv && f.ctx < 4097)),
{
}

/// What is saved of a layer is the used part of its rows, and never more
/// than its buffer; a stub of a buffer is not saved.
pub proof fn saves_are_the_used_part(used: int, width: int, room: int)
    requires
        0 <= used,
        0 <= width,
        0 <= room,
    ensures
        prefix::comp_used(used, width, room) <= room,
        prefix::comp_used(used, width, room) == used * width * 4 || prefix::comp_used(
            used,
            width,
            room,
        ) == room,
        used * width * 4 <= room ==> prefix::comp_used(used, width, room) == used * width * 4,
        prefix::keys_used(used, width, room) <= room,
        room <= 4 ==> prefix::keys_used(used, width, room) == 0,
        room > 4 && used * width * 2 <= room ==> prefix::keys_used(used, width, room) == used * width
            * 2,
        room > 4 && used * width * 2 > room ==> prefix::keys_used(used, width, room) == room,
{
}

/// The three slabs of an expert are counted where its tensors lie in the
/// file: gate, up and down, a slab being an equal part of its tensor.
pub proof fn heat_is_read_at_the_slabs(h: &Header, heat: Map<u64, (u64, u64)>, il: u64, e: u64, n: u64)
    requires
        n > 0,
        hotlist::has_parts(h, il, n),
    ensures
        ({
            let gate = h.tensor_named(header::blk_name(il as nat, "ffn_gate_exps.weight"@))->0;
            let up = h.tensor_named(header::blk_name(il as nat, "ffn_up_exps.weight"@))->0;
            let down = h.tensor_named(header::blk_name(il as nat, "ffn_down_exps.weight"@))->0;
            let at = |off: u64, bytes: u64|
                {
                    let o = (h.data_offset + off + e * (bytes as int / n as int)) as u64;
                    if heat.contains_key(o) {
                        heat[o].0 as int
                    } else {
                        0
                    }
                };
            hotlist::expert_heat(h, heat, il, e, n) == at(gate.offset, gate.byte_size->0) + at(
                up.offset,
                up.byte_size->0,
            ) + at(down.offset, down.byte_size->0)
        }),
{
}

/// The name that a report gives of a cache is the banner's, but that a
/// latent cache is named by its own format.
pub proof fn reports_name_the_cache(c: KvChoice)
    ensures
        c.lat == LatFormat::F32 ==> stats::resolved_name(&c) == kv::label(c),
        c.format == KvFormat::F32 && c.lat == LatFormat::Fp8 ==> stats::resolved_name(&c) == "fp8"@,
        c.format == KvFormat::F32 && c.lat == LatFormat::Fp16 ==> stats::resolved_name(&c)
            == "fp16"@,
{
}

/// What no part of a resolve accounts for is what its parts leave of it.
pub proof fn parts_and_rest_make_the_resolve(p: &Prof)
    ensures
        ({
            let parts = p.resolve_d2h + p.resolve_lists + p.resolve_host + p.resolve_fetch + p.h2d
                + p.resolve_absorb + p.resolve_ptrs;
            &&& parts <= p.resolve ==> p.unaccounted() + parts == p.resolve
            &&& parts > p.resolve ==> p.unaccounted() == 0
        }),
{
}

} // verus!
