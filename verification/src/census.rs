//! Slab popularity across runs: the census kept next to a model file.

use std::collections::HashMap;
use vstd::prelude::*;

use crate::bytes;
use crate::sort;

verus! {

broadcast use vstd::std_specs::hash::group_hash_axioms;

/// Bytes of one census record.
pub const CENSUS_RECORD: usize = 24;

/// One census record: a slab, its length, and how often a run asked for it.
#[derive(Clone, Copy, Debug, PartialEq, Eq, Structural)]
pub struct CensusEntry {
    pub offset: u64,
    pub len: u64,
    pub count: u64,
}

/// The bytes of one record: three little-endian 64-bit integers.
pub open spec fn record_bytes(e: CensusEntry) -> Seq<u8> {
    bytes::le_bytes(e.offset as nat, 8) + bytes::le_bytes(e.len as nat, 8) + bytes::le_bytes(e.count as nat, 8)
}

/// The bytes of a census: its records one after the other.
pub open spec fn census_bytes(es: Seq<CensusEntry>) -> Seq<u8>
    decreases es.len(),
{
    if es.len() == 0 {
        Seq::empty()
    } else {
        census_bytes(es.drop_last()) + record_bytes(es.last())
    }
}

/// The record that starts at byte `at`.
pub open spec fn record_at(b: Seq<u8>, at: int) -> CensusEntry {
    CensusEntry {
        offset: bytes::le_value(b.subrange(at, at + 8)) as u64,
        len: bytes::le_value(b.subrange(at + 8, at + 16)) as u64,
        count: bytes::le_value(b.subrange(at + 16, at + 24)) as u64,
    }
}

/// The census in `b`: every whole record, a partial one at the end ignored.
pub open spec fn census_in(b: Seq<u8>) -> Seq<CensusEntry> {
    Seq::new((b.len() / CENSUS_RECORD as nat) as nat, |i: int| record_at(b, i * 24))
}

/// Read a census.
pub fn read_census(b: &Vec<u8>) -> (es: Vec<CensusEntry>)
    ensures
        es@ == census_in(b@),
{
    let n: usize = b.len() / CENSUS_RECORD;
    let mut es: Vec<CensusEntry> = Vec::new();
    let mut i: usize = 0;
    while i < n
        invariant
            i <= n,
            n == b@.len() / CENSUS_RECORD as nat,
            n * 24 <= b@.len(),
            b@.len() <= usize::MAX,
            es@ =~= census_in(b@).take(i as int),
        decreases n - i,
    {
        let at: usize = i * CENSUS_RECORD;
        let offset: u64 = bytes::read_le(b, at, 8);
        let len: u64 = bytes::read_le(b, at + 8, 8);
        let count: u64 = bytes::read_le(b, at + 16, 8);
        es.push(CensusEntry { offset, len, count });
        i = i + 1;
    }
    assert(es@ =~= census_in(b@));
    es
}

/// Write a census.
pub fn write_census(es: &Vec<CensusEntry>) -> (b: Vec<u8>)
    ensures
        b@ == census_bytes(es@),
{
    let mut b: Vec<u8> = Vec::new();
    let mut i: usize = 0;
    assert(es@.take(0) =~= Seq::<CensusEntry>::empty());
    while i < es.len()
        invariant
            i <= es@.len(),
            b@ == census_bytes(es@.take(i as int)),
        decreases es@.len() - i,
    {
        let ghost was = b@;
        bytes::push_le(&mut b, es[i].offset, 8);
        bytes::push_le(&mut b, es[i].len, 8);
        bytes::push_le(&mut b, es[i].count, 8);
        proof {
            assert(es@.take(i + 1).drop_last() =~= es@.take(i as int));
            assert(es@.take(i + 1).last() == es@[i as int]);
            assert(b@ =~= was + record_bytes(es@[i as int]));
        }
        i = i + 1;
    }
    assert(es@.take(i as int) =~= es@);
    b
}

proof fn lemma_record_round_trip(b: Seq<u8>, at: int, e: CensusEntry)
    requires
        0 <= at,
        at + 24 <= b.len(),
        b.subrange(at, at + 24) == record_bytes(e),
    ensures
        record_at(b, at) == e,
{
    bytes::lemma_byte_ranges();
    bytes::le_round_trip(e.offset as nat, 8);
    bytes::le_round_trip(e.len as nat, 8);
    bytes::le_round_trip(e.count as nat, 8);
    let r = b.subrange(at, at + 24);
    assert(b.subrange(at, at + 8) =~= r.subrange(0, 8));
    assert(b.subrange(at + 8, at + 16) =~= r.subrange(8, 16));
    assert(b.subrange(at + 16, at + 24) =~= r.subrange(16, 24));
    assert(r.subrange(0, 8) =~= bytes::le_bytes(e.offset as nat, 8));
    assert(r.subrange(8, 16) =~= bytes::le_bytes(e.len as nat, 8));
    assert(r.subrange(16, 24) =~= bytes::le_bytes(e.count as nat, 8));
}

proof fn lemma_census_len(es: Seq<CensusEntry>)
    ensures
        census_bytes(es).len() == es.len() * 24,
    decreases es.len(),
{
    if es.len() > 0 {
        lemma_census_len(es.drop_last());
        bytes::lemma_le_len(es.last().offset as nat, 8);
        bytes::lemma_le_len(es.last().len as nat, 8);
        bytes::lemma_le_len(es.last().count as nat, 8);
    }
}

/// A census that was written reads back as it was.
pub proof fn census_round_trip(es: Seq<CensusEntry>)
    ensures
        census_in(census_bytes(es)) == es,
    decreases es.len(),
{
    let b = census_bytes(es);
    lemma_census_len(es);
    if es.len() == 0 {
        assert(census_in(b) =~= es);
    } else {
        let head = es.drop_last();
        let hb = census_bytes(head);
        census_round_trip(head);
        lemma_census_len(head);
        assert forall|i: int| 0 <= i < es.len() implies census_in(b)[i] == es[i] by {
            if i < head.len() {
                assert(census_in(hb)[i] == head[i]);
                assert(b.subrange(i * 24, i * 24 + 8) =~= hb.subrange(i * 24, i * 24 + 8));
                assert(b.subrange(i * 24 + 8, i * 24 + 16) =~= hb.subrange(i * 24 + 8, i * 24 + 16));
                assert(b.subrange(i * 24 + 16, i * 24 + 24) =~= hb.subrange(
                    i * 24 + 16,
                    i * 24 + 24,
                ));
            } else {
                assert(b.subrange(i * 24, i * 24 + 24) =~= record_bytes(es.last()));
                lemma_record_round_trip(b, i * 24, es.last());
            }
        }
        assert(census_in(b) =~= es);
    }
}

/// Census records by offset; a later record replaces an earlier one.
pub open spec fn by_offset(es: Seq<CensusEntry>) -> Map<u64, (u64, u64)>
    decreases es.len(),
{
    if es.len() == 0 {
        Map::empty()
    } else {
        by_offset(es.drop_last()).insert(es.last().offset, (es.last().count, es.last().len))
    }
}

/// Count and length of each slab in a census, by offset.
pub fn census_map(es: &Vec<CensusEntry>) -> (m: HashMap<u64, (u64, u64)>)
    ensures
        m@ == by_offset(es@),
{
    let mut m: HashMap<u64, (u64, u64)> = HashMap::new();
    let mut i: usize = 0;
    assert(es@.take(0) =~= Seq::<CensusEntry>::empty());
    while i < es.len()
        invariant
            i <= es@.len(),
            m@ == by_offset(es@.take(i as int)),
        decreases es@.len() - i,
    {
        m.insert(es[i].offset, (es[i].count, es[i].len));
        proof {
            assert(es@.take(i + 1).drop_last() =~= es@.take(i as int));
            assert(es@.take(i + 1).last() == es@[i as int]);
        }
        i = i + 1;
    }
    assert(es@.take(i as int) =~= es@);
    m
}

/// `es` lists the pairs of `m`, each once.
pub open spec fn lists(es: Seq<CensusEntry>, m: Map<u64, (u64, u64)>) -> bool {
    &&& forall|i: int|
        0 <= i < es.len() ==> m.contains_key((#[trigger] es[i]).offset) && m[es[i].offset] == (
            es[i].count,
            es[i].len,
        )
    &&& forall|i: int, j: int|
        0 <= i < j < es.len() ==> (#[trigger] es[i]).offset != (#[trigger] es[j]).offset
    &&& forall|k: u64| #[trigger] m.contains_key(k) ==> names(es, k)
}

/// Some entry has this offset.
pub open spec fn names(es: Seq<CensusEntry>, k: u64) -> bool {
    exists|i: int| 0 <= i < es.len() && (#[trigger] es[i]).offset == k
}

/// The pairs of `m` in the order in which the map is walked.
pub fn entries_of(m: &HashMap<u64, (u64, u64)>) -> (es: Vec<CensusEntry>)
    ensures
        lists(es@, m@),
{
    let mut es: Vec<CensusEntry> = Vec::new();
    for kv in it: m.iter()
        invariant
            forall|i: int|
                0 <= i < it.seq().len() ==> m@.contains_key(*(#[trigger] it.seq()[i]).0)
                    && m@[*it.seq()[i].0] == *it.seq()[i].1,
            it.seq().no_duplicates(),
            es@.len() == it.index(),
            forall|k: u64| #[trigger]
                m@.contains_key(k) ==> names(es@, k) || exists|j: int|
                    it.index() <= j < it.seq().len() && *(#[trigger] it.seq()[j]).0 == k,
            forall|i: int|
                0 <= i < es@.len() ==> (#[trigger] es@[i]).offset == *it.seq()[i].0 && es@[i].count
                    == it.seq()[i].1.0 && es@[i].len == it.seq()[i].1.1,
            forall|i: int, j: int|
                0 <= i < j < es@.len() ==> (#[trigger] es@[i]).offset != (#[trigger] es@[j]).offset,
    {
        let ghost was = es@;
        es.push(CensusEntry { offset: *kv.0, count: kv.1.0, len: kv.1.1 });
        proof {
            let n = it.index() as int;
            assert forall|i: int| 0 <= i < n implies (#[trigger] es@[i]).offset != es@[n].offset by {
                if es@[i].offset == es@[n].offset {
                    assert(*it.seq()[i].0 == *it.seq()[n].0);
                    assert(*it.seq()[i].1 == *it.seq()[n].1);
                    assert(it.seq()[i] == it.seq()[n]);
                }
            }
            assert forall|k: u64| #[trigger] m@.contains_key(k) implies names(es@, k) || exists|
                j: int,
            |
                it.index() + 1 <= j < it.seq().len() && *(#[trigger] it.seq()[j]).0 == k by {
                if names(was, k) {
                    let i = choose|i: int| 0 <= i < was.len() && (#[trigger] was[i]).offset == k;
                    assert(es@[i].offset == k);
                } else {
                    let j = choose|j: int|
                        it.index() <= j < it.seq().len() && *(#[trigger] it.seq()[j]).0 == k;
                    if j == n {
                        assert(es@[j].offset == k);
                    }
                }
            }
        }
    }
    es
}

/// What a run adds to a slab's count: its touches, less what it was seeded
/// with.
pub open spec fn run_delta(touch: Map<u64, (u64, u64)>, seeds: Map<u64, u64>, off: u64) -> u64 {
    let seed = if seeds.contains_key(off) { seeds[off] } else { 0 };
    if touch[off].0 >= seed {
        (touch[off].0 - seed) as u64
    } else {
        0
    }
}

/// The merged census: per slab, the larger of the old count and this run's;
/// the length is this run's where it asked for the slab.
pub open spec fn merged(
    was: Map<u64, (u64, u64)>,
    touch: Map<u64, (u64, u64)>,
    seeds: Map<u64, u64>,
) -> Map<u64, (u64, u64)> {
    Map::new(
        |k: u64| was.contains_key(k) || touch.contains_key(k),
        |k: u64|
            if touch.contains_key(k) {
                let d = run_delta(touch, seeds, k);
                let o = if was.contains_key(k) { was[k].0 } else { 0 };
                (if o >= d { o } else { d }, touch[k].1)
            } else {
                was[k]
            },
    )
}

/// `es` lists `m`, the hottest slab first.
pub open spec fn hottest_first(es: Seq<CensusEntry>, m: Map<u64, (u64, u64)>) -> bool {
    &&& lists(es, m)
    &&& forall|i: int, j: int|
        0 <= i < j < es.len() ==> (#[trigger] es[i]).count >= (#[trigger] es[j]).count
}

/// Order census entries from the hottest to the coldest.
pub fn sort_hottest(es: &Vec<CensusEntry>) -> (out: Vec<CensusEntry>)
    ensures
        out@.len() == es@.len(),
        forall|i: int, j: int|
            0 <= i < j < out@.len() ==> (#[trigger] out@[i]).count >= (#[trigger] out@[j]).count,
        forall|m: Map<u64, (u64, u64)>| lists(es@, m) ==> lists(out@, m),
{
    let mut keys: Vec<u64> = Vec::new();
    let mut i: usize = 0;
    while i < es.len()
        invariant
            i <= es@.len(),
            keys@.len() == i,
            forall|k: int| 0 <= k < i ==> #[trigger] keys@[k] == es@[k].count,
        decreases es@.len() - i,
    {
        keys.push(es[i].count);
        i = i + 1;
    }
    let p = sort::rank_desc(&keys);
    let mut out: Vec<CensusEntry> = Vec::new();
    let mut j: usize = 0;
    while j < p.len()
        invariant
            j <= p@.len(),
            p@.len() == es@.len(),
            sort::ranks(sort::flipped(keys@), 0, keys@.len() as int, p@),
            keys@.len() == es@.len(),
            out@.len() == j,
            forall|k: int| 0 <= k < j ==> #[trigger] out@[k] == es@[p@[k] as int],
        decreases p@.len() - j,
    {
        out.push(es[p[j]]);
        j = j + 1;
    }
    proof {
        assert forall|i: int, j: int| 0 <= i < j < out@.len() implies (#[trigger] out@[i]).count >= (
        #[trigger] out@[j]).count by {
            assert(keys@[p@[i] as int] >= keys@[p@[j] as int]);
        }
        assert forall|m: Map<u64, (u64, u64)>| lists(es@, m) implies lists(out@, m) by {
            assert forall|i: int, j: int| 0 <= i < j < out@.len() implies (#[trigger] out@[i]).offset
                != (#[trigger] out@[j]).offset by {
                assert(sort::before(sort::flipped(keys@), p@[i] as int, p@[j] as int));
                assert(p@[i] != p@[j]);
                if p@[i] < p@[j] {
                    assert(es@[p@[i] as int].offset != es@[p@[j] as int].offset);
                } else {
                    assert(es@[p@[j] as int].offset != es@[p@[i] as int].offset);
                }
            }
            assert forall|k: u64| #[trigger] m.contains_key(k) implies names(out@, k) by {
                assert(names(es@, k));
                let i = choose|i: int| 0 <= i < es@.len() && (#[trigger] es@[i]).offset == k;
                assert(p@.contains(i as usize));
                let q = choose|q: int| 0 <= q < p@.len() && p@[q] == i as usize;
                assert(out@[q].offset == k);
            }
        }
    }
    out
}

/// The census to save after a run.
pub fn merge_census(
    was: &Vec<CensusEntry>,
    touch: &HashMap<u64, (u64, u64)>,
    seeds: &HashMap<u64, u64>,
) -> (es: Vec<CensusEntry>)
    ensures
        hottest_first(es@, merged(by_offset(was@), touch@, seeds@)),
{
    let mut m = census_map(was);
    let ghost start = m@;
    let run = entries_of(touch);
    let mut i: usize = 0;
    while i < run.len()
        invariant
            i <= run@.len(),
            lists(run@, touch@),
            forall|k: u64| #[trigger]
                m@.contains_key(k) <==> start.contains_key(k) || names(run@.take(i as int), k),
            forall|k: u64| #[trigger]
                m@.contains_key(k) ==> m@[k] == if names(run@.take(i as int), k) {
                    merged(start, touch@, seeds@)[k]
                } else {
                    start[k]
                },
        decreases run@.len() - i,
    {
        let r: CensusEntry = run[i];
        let seed: u64 = match seeds.get(&r.offset) {
            Some(s) => *s,
            None => 0,
        };
        let delta: u64 = if r.count >= seed { r.count - seed } else { 0 };
        let prior: u64 = match m.get(&r.offset) {
            Some(c) => c.0,
            None => 0,
        };
        let ghost mid = m@;
        proof {
            if names(run@.take(i as int), r.offset) {
                let x = choose|x: int|
                    0 <= x < i && (#[trigger] run@.take(i as int)[x]).offset == r.offset;
                assert(run@[x].offset == run@[i as int].offset);
            }
            assert(touch@.contains_key(run@[i as int].offset));
        }
        m.insert(r.offset, (if prior >= delta { prior } else { delta }, r.len));
        proof {
            let a = run@.take(i as int);
            let b = run@.take(i + 1);
            assert forall|k: u64| names(b, k) <==> names(a, k) || k == r.offset by {
                if names(b, k) {
                    let x = choose|x: int| 0 <= x < b.len() && (#[trigger] b[x]).offset == k;
                    if x < i {
                        assert(a[x].offset == k);
                    }
                }
                if names(a, k) {
                    let x = choose|x: int| 0 <= x < a.len() && (#[trigger] a[x]).offset == k;
                    assert(b[x].offset == k);
                }
                if k == r.offset {
                    assert(b[i as int].offset == k);
                }
            }
        }
        i = i + 1;
    }
    proof {
        assert(run@.take(i as int) =~= run@);
        assert forall|k: u64| names(run@, k) <==> touch@.contains_key(k) by {
            if names(run@, k) {
                let x = choose|x: int| 0 <= x < run@.len() && (#[trigger] run@[x]).offset == k;
                assert(touch@.contains_key(run@[x].offset));
            }
        }
        assert(m@ =~= merged(start, touch@, seeds@));
    }
    let all = entries_of(&m);
    sort_hottest(&all)
}

/// A save never lowers a slab's count, and never forgets a slab.
pub proof fn merge_never_lowers(
    was: Map<u64, (u64, u64)>,
    touch: Map<u64, (u64, u64)>,
    seeds: Map<u64, u64>,
    k: u64,
)
    requires
        was.contains_key(k),
    ensures
        merged(was, touch, seeds).contains_key(k),
        merged(was, touch, seeds)[k].0 >= was[k].0,
{
}

/// Counts stay at per-run scale: a slab seeded with its own census count and
/// touched `n` times ends with the larger of the two, never their sum.
pub proof fn merge_does_not_ratchet(
    was: Map<u64, (u64, u64)>,
    touch: Map<u64, (u64, u64)>,
    seeds: Map<u64, u64>,
    k: u64,
    n: nat,
)
    requires
        was.contains_key(k),
        seeds.contains_key(k),
        seeds[k] == was[k].0,
        touch.contains_key(k),
        touch[k].0 == was[k].0 + n,
    ensures
        merged(was, touch, seeds)[k].0 == if n <= was[k].0 { was[k].0 as nat } else { n },
{
}

} // verus!
