//! Host-memory slab cache: least-frequently-used, evicting by sample.
//!
//! Slabs fetched from disk stay in host memory until the byte budget runs
//! out. A full scan for the coldest of tens of thousands of entries is too
//! slow on the per-layer path, so each eviction looks at a strided sample of
//! the entries that may go and gives up the coldest of those.

use std::collections::HashMap;
use vstd::prelude::*;

use crate::dev_cache::holds;

verus! {

broadcast use vstd::std_specs::hash::group_hash_axioms;

/// Entries looked at per eviction.
pub const EVICT_SAMPLE: usize = 64;

/// One read of the model file.
#[derive(Clone, Copy, Debug, PartialEq, Eq, Structural)]
pub struct Read {
    pub offset: u64,
    pub len: u64,
}

/// A cached slab: `bytes` is what it occupies, `freq` and `tick` order it
/// for eviction.
pub struct CacheEntry<S> {
    pub slab: S,
    pub bytes: usize,
    pub freq: u64,
    pub tick: u64,
}

/// What eviction reads of one entry.
#[derive(Clone, Copy, Debug, PartialEq, Eq, Structural)]
pub struct Ranked {
    pub key: u64,
    pub freq: u64,
    pub tick: u64,
}

/// `a` leaves before `b`: fewer uses, then the older one.
pub open spec fn colder(a: Ranked, b: Ranked) -> bool {
    a.freq < b.freq || (a.freq == b.freq && a.tick < b.tick)
}

/// The offsets of a list of reads.
pub open spec fn offsets(reads: Seq<Read>) -> Seq<u64> {
    Seq::new(reads.len(), |i: int| reads[i].offset)
}

/// Sum of the lengths of a list of reads.
pub open spec fn total_len(reads: Seq<Read>) -> nat
    decreases reads.len(),
{
    if reads.len() == 0 {
        0
    } else {
        total_len(reads.drop_last()) + reads.last().len as nat
    }
}

/// Entries of a walk that may go: neither wanted nor pinned.
pub open spec fn spared(key: u64, wanted: Seq<u64>, pinned: Seq<u64>) -> bool {
    wanted.contains(key) || pinned.contains(key)
}

pub open spec fn eligible(walk: Seq<Ranked>, wanted: Seq<u64>, pinned: Seq<u64>) -> Seq<Ranked>
    decreases walk.len(),
{
    if walk.len() == 0 {
        Seq::empty()
    } else {
        let head = eligible(walk.drop_last(), wanted, pinned);
        if spared(walk.last().key, wanted, pinned) {
            head
        } else {
            head.push(walk.last())
        }
    }
}

/// Distance between sampled entries when the cache holds `n`.
pub open spec fn stride(n: nat) -> nat {
    if n / EVICT_SAMPLE as nat == 0 {
        1
    } else {
        n / EVICT_SAMPLE as nat
    }
}

/// Index of the first coldest among the sampled entries `0, step, ..`
/// below the `k`-th sample.
pub open spec fn coldest_sample(e: Seq<Ranked>, step: nat, k: nat) -> Option<int>
    decreases k,
{
    if k == 0 {
        None
    } else {
        let i = (k - 1) * step;
        let before = coldest_sample(e, step, (k - 1) as nat);
        if i >= e.len() {
            before
        } else if before matches Some(b) && !colder(e[i], e[b]) {
            before
        } else {
            Some(i)
        }
    }
}

/// The entry given up, for a cache walked in the order `walk`.
pub open spec fn victim_of(walk: Seq<Ranked>, wanted: Seq<u64>, pinned: Seq<u64>) -> Option<u64> {
    let e = eligible(walk, wanted, pinned);
    match coldest_sample(e, stride(walk.len()), EVICT_SAMPLE as nat) {
        Some(i) => Some(e[i].key),
        None => None,
    }
}

proof fn lemma_eligible(walk: Seq<Ranked>, wanted: Seq<u64>, pinned: Seq<u64>)
    ensures
        forall|r: Ranked| #[trigger]
            eligible(walk, wanted, pinned).contains(r) <==> walk.contains(r) && !spared(
                r.key,
                wanted,
                pinned,
            ),
        eligible(walk, wanted, pinned).len() <= walk.len(),
    decreases walk.len(),
{
    let e = eligible(walk, wanted, pinned);
    if walk.len() > 0 {
        let w = walk.drop_last();
        let h = eligible(w, wanted, pinned);
        lemma_eligible(w, wanted, pinned);
        assert forall|r: Ranked| #[trigger] e.contains(r) <==> walk.contains(r) && !spared(
            r.key,
            wanted,
            pinned,
        ) by {
            if e.contains(r) {
                let i = choose|i: int| 0 <= i < e.len() && e[i] == r;
                if i < h.len() {
                    assert(h[i] == r);
                    assert(h.contains(r));
                    let j = choose|j: int| 0 <= j < w.len() && w[j] == r;
                    assert(walk[j] == r);
                } else {
                    assert(walk[walk.len() - 1] == r);
                }
            }
            if walk.contains(r) && !spared(r.key, wanted, pinned) {
                let j = choose|j: int| 0 <= j < walk.len() && walk[j] == r;
                if j < w.len() {
                    assert(w[j] == r);
                    assert(w.contains(r));
                    assert(h.contains(r));
                    let i = choose|i: int| 0 <= i < h.len() && h[i] == r;
                    assert(e[i] == r);
                } else {
                    assert(e[e.len() - 1] == r);
                }
            }
        }
    }
}

proof fn lemma_coldest_sample(e: Seq<Ranked>, step: nat, k: nat)
    requires
        step > 0,
    ensures
        match coldest_sample(e, step, k) {
            Some(i) => 0 <= i < e.len() && forall|j: nat|
                j < k && #[trigger] (j * step) < e.len() ==> !colder(e[(j * step) as int], e[i]),
            None => k == 0 || e.len() == 0,
        },
    decreases k,
{
    if k > 0 {
        lemma_coldest_sample(e, step, (k - 1) as nat);
        assert(0 <= (k - 1) * step) by (nonlinear_arith)
            requires
                k > 0,
        ;
        if k == 1 {
            assert((k - 1) * step == 0) by (nonlinear_arith)
                requires
                    k == 1,
            ;
        }
    }
}

/// Eviction never gives up a wanted or pinned entry, and finds one whenever
/// some entry may go.
pub proof fn victim_may_go(walk: Seq<Ranked>, wanted: Seq<u64>, pinned: Seq<u64>)
    ensures
        match victim_of(walk, wanted, pinned) {
            Some(k) => !spared(k, wanted, pinned) && exists|i: int|
                0 <= i < walk.len() && (#[trigger] walk[i]).key == k,
            None => forall|i: int|
                0 <= i < walk.len() ==> spared((#[trigger] walk[i]).key, wanted, pinned),
        },
{
    let e = eligible(walk, wanted, pinned);
    lemma_eligible(walk, wanted, pinned);
    lemma_coldest_sample(e, stride(walk.len()), EVICT_SAMPLE as nat);
    match coldest_sample(e, stride(walk.len()), EVICT_SAMPLE as nat) {
        Some(i) => {
            assert(e.contains(e[i]));
            let j = choose|j: int| 0 <= j < walk.len() && walk[j] == e[i];
            assert(walk[j].key == e[i].key);
        },
        None => {
            assert forall|i: int| 0 <= i < walk.len() implies spared(
                (#[trigger] walk[i]).key,
                wanted,
                pinned,
            ) by {
                if !spared(walk[i].key, wanted, pinned) {
                    assert(walk.contains(walk[i]));
                    assert(e.contains(walk[i]));
                }
            }
        },
    }
}

/// With no more entries than one sample covers, the coldest entry that may
/// go is the one that goes.
pub proof fn small_cache_evicts_coldest(walk: Seq<Ranked>, wanted: Seq<u64>, pinned: Seq<u64>)
    requires
        walk.len() <= EVICT_SAMPLE,
    ensures
        victim_of(walk, wanted, pinned) matches Some(k) ==> exists|v: Ranked|
            v.key == k && #[trigger] eligible(walk, wanted, pinned).contains(v) && forall|o: Ranked|
                #[trigger] eligible(walk, wanted, pinned).contains(o) ==> !colder(o, v),
{
    let e = eligible(walk, wanted, pinned);
    lemma_eligible(walk, wanted, pinned);
    assert(stride(walk.len()) == 1) by {
        if walk.len() == EVICT_SAMPLE {
            assert(EVICT_SAMPLE as nat / EVICT_SAMPLE as nat == 1);
        } else {
            assert(walk.len() / EVICT_SAMPLE as nat == 0) by (nonlinear_arith)
                requires
                    walk.len() < EVICT_SAMPLE as nat,
            ;
        }
    }
    lemma_coldest_sample(e, 1, EVICT_SAMPLE as nat);
    if let Some(i) = coldest_sample(e, 1, EVICT_SAMPLE as nat) {
        assert(e.contains(e[i]));
        assert forall|o: Ranked| #[trigger] e.contains(o) implies !colder(o, e[i]) by {
            let j = choose|j: int| 0 <= j < e.len() && e[j] == o;
            assert((j as nat) * 1 < e.len());
            assert(e[((j as nat) * 1) as int] == o);
        }
    }
}

/// Pick the entry to give up, for a cache walked in the order `walk`.
pub fn pick_victim(walk: &Vec<Ranked>, wanted: &Vec<Read>, pinned: &Vec<u64>) -> (r: Option<u64>)
    ensures
        r == victim_of(walk@, offsets(wanted@), pinned@),
{
    let n: usize = walk.len();
    let step: usize = if n / EVICT_SAMPLE == 0 { 1 } else { n / EVICT_SAMPLE };
    let mut e: Vec<Ranked> = Vec::new();
    let mut i: usize = 0;
    while i < n
        invariant
            i <= n,
            n == walk@.len(),
            e@ == eligible(walk@.take(i as int), offsets(wanted@), pinned@),
        decreases n - i,
    {
        let it: Ranked = walk[i];
        proof {
            assert(walk@.take(i + 1).drop_last() =~= walk@.take(i as int));
        }
        if !wants(wanted, it.key) && !holds(pinned, it.key) {
            e.push(it);
        }
        i = i + 1;
    }
    proof {
        assert(walk@.take(n as int) =~= walk@);
        lemma_eligible(walk@, offsets(wanted@), pinned@);
    }
    let mut best: Option<usize> = None;
    let mut k: usize = 0;
    let mut at: usize = 0;
    while k < EVICT_SAMPLE && at < e.len()
        invariant
            k <= EVICT_SAMPLE,
            at == k * step,
            step > 0,
            step <= n || step == 1,
            n == walk@.len(),
            e@.len() <= n,
            step == stride(walk@.len()),
            e@ == eligible(walk@, offsets(wanted@), pinned@),
            match best {
                Some(b) => coldest_sample(e@, step as nat, k as nat) == Some(b as int) && b
                    < e@.len(),
                None => coldest_sample(e@, step as nat, k as nat) is None,
            },
        decreases EVICT_SAMPLE - k,
    {
        let better: bool = match best {
            Some(b) => e[at].freq < e[b].freq || (e[at].freq == e[b].freq && e[at].tick
                < e[b].tick),
            None => true,
        };
        if better {
            best = Some(at);
        }
        proof {
            assert((k + 1) * step == k * step + step) by (nonlinear_arith);
        }
        if e.len() - at <= step {
            proof {
                lemma_past_end(e@, step as nat, (k + 1) as nat, EVICT_SAMPLE as nat);
            }
            return match best {
                Some(b) => Some(e[b].key),
                None => None,
            };
        }
        at = at + step;
        k = k + 1;
    }
    proof {
        if k < EVICT_SAMPLE {
            lemma_past_end(e@, step as nat, k as nat, EVICT_SAMPLE as nat);
        }
    }
    match best {
        Some(b) => Some(e[b].key),
        None => None,
    }
}

/// Samples past the end change nothing.
proof fn lemma_past_end(e: Seq<Ranked>, step: nat, k: nat, m: nat)
    requires
        k <= m,
        k * step >= e.len(),
    ensures
        coldest_sample(e, step, m) == coldest_sample(e, step, k),
    decreases m - k,
{
    if k < m {
        assert((m - 1) * step >= k * step) by (nonlinear_arith)
            requires
                m - 1 >= k,
        ;
        lemma_past_end(e, step, k, (m - 1) as nat);
    }
}

/// True when some read starts at `offset`.
pub fn wants(reads: &Vec<Read>, offset: u64) -> (r: bool)
    ensures
        r == offsets(reads@).contains(offset),
{
    let mut i: usize = 0;
    while i < reads.len()
        invariant
            i <= reads@.len(),
            forall|j: int| 0 <= j < i ==> (#[trigger] reads@[j]).offset != offset,
        decreases reads@.len() - i,
    {
        if reads[i].offset == offset {
            assert(offsets(reads@)[i as int] == offset);
            return true;
        }
        i = i + 1;
    }
    assert forall|j: int| 0 <= j < offsets(reads@).len() implies offsets(reads@)[j] != offset by {
        assert(reads@[j].offset != offset);
    }
    false
}

/// Sum of the lengths of `reads`.
pub fn read_bytes(reads: &Vec<Read>) -> (n: usize)
    requires
        total_len(reads@) <= usize::MAX,
    ensures
        n == total_len(reads@),
{
    let mut sum: usize = 0;
    let mut i: usize = 0;
    while i < reads.len()
        invariant
            i <= reads@.len(),
            sum == total_len(reads@.take(i as int)),
            total_len(reads@) <= usize::MAX,
        decreases reads@.len() - i,
    {
        proof {
            assert(reads@.take(i + 1).drop_last() =~= reads@.take(i as int));
            lemma_total_len_take(reads@, i + 1);
        }
        sum = sum + reads[i].len as usize;
        i = i + 1;
    }
    proof {
        assert(reads@.take(i as int) =~= reads@);
    }
    sum
}

pub proof fn lemma_total_len_take(reads: Seq<Read>, i: int)
    requires
        0 <= i <= reads.len(),
    ensures
        total_len(reads.take(i)) <= total_len(reads),
    decreases reads.len(),
{
    if i == reads.len() {
        assert(reads.take(i) =~= reads);
    } else {
        lemma_total_len_take(reads.drop_last(), i);
        assert(reads.drop_last().take(i) =~= reads.take(i));
    }
}

/// Bytes held by a set of entries.
pub open spec fn bytes_held<S>(m: Map<u64, CacheEntry<S>>) -> nat
    decreases m.dom().len(),
    when m.dom().finite()
{
    if m.dom().len() == 0 {
        0
    } else {
        let k = m.dom().choose();
        m[k].bytes as nat + bytes_held(m.remove(k))
    }
}

proof fn lemma_bytes_remove<S>(m: Map<u64, CacheEntry<S>>, k: u64)
    requires
        m.dom().finite(),
        m.contains_key(k),
    ensures
        bytes_held(m) == m[k].bytes as nat + bytes_held(m.remove(k)),
    decreases m.dom().len(),
{
    let c = m.dom().choose();
    assert(m.dom().contains(k));
    if c != k {
        lemma_bytes_remove(m.remove(c), k);
        lemma_bytes_remove(m.remove(k), c);
        assert(m.remove(c).remove(k) =~= m.remove(k).remove(c));
    }
}

proof fn lemma_bytes_insert<S>(m: Map<u64, CacheEntry<S>>, k: u64, e: CacheEntry<S>)
    requires
        m.dom().finite(),
    ensures
        bytes_held(m.insert(k, e)) == bytes_held(m.remove(k)) + e.bytes as nat,
        bytes_held(m.insert(k, e)) <= bytes_held(m) + e.bytes as nat,
        !m.contains_key(k) ==> bytes_held(m.insert(k, e)) == bytes_held(m) + e.bytes as nat,
{
    lemma_bytes_remove(m.insert(k, e), k);
    assert(m.insert(k, e).remove(k) =~= m.remove(k));
    if m.contains_key(k) {
        lemma_bytes_remove(m, k);
    } else {
        assert(m.remove(k) =~= m);
    }
}

/// What a walk over the cache yields, whatever the order: each entry once.
pub open spec fn is_walk<S>(m: Map<u64, CacheEntry<S>>, walk: Seq<Ranked>) -> bool {
    &&& walk.len() == m.dom().len()
    &&& forall|i: int|
        0 <= i < walk.len() ==> m.contains_key((#[trigger] walk[i]).key) && m[walk[i].key].freq
            == walk[i].freq && m[walk[i].key].tick == walk[i].tick
    &&& forall|k: u64| #[trigger] m.contains_key(k) ==> listed(walk, k)
}

/// Some item of the walk has this key.
pub open spec fn listed(walk: Seq<Ranked>, k: u64) -> bool {
    exists|i: int| 0 <= i < walk.len() && (#[trigger] walk[i]).key == k
}

/// `b` is `a` less some entries, none of them wanted or pinned.
pub open spec fn thinned<S>(
    a: Map<u64, CacheEntry<S>>,
    b: Map<u64, CacheEntry<S>>,
    wanted: Seq<u64>,
    pinned: Seq<u64>,
) -> bool {
    &&& b.dom().finite()
    &&& forall|k: u64| #[trigger] b.contains_key(k) ==> a.contains_key(k) && b[k] == a[k]
    &&& forall|k: u64| #[trigger]
        a.contains_key(k) && spared(k, wanted, pinned) ==> b.contains_key(k)
}

/// `m` with the entries `ks` removed.
pub open spec fn without<S>(m: Map<u64, CacheEntry<S>>, ks: Seq<u64>) -> Map<u64, CacheEntry<S>>
    decreases ks.len(),
{
    if ks.len() == 0 {
        m
    } else {
        without(m, ks.drop_last()).remove(ks.last())
    }
}

/// Byte count of the cache `m`, of count `used`, once only `kept` is left.
pub open spec fn used_after<S>(
    m: Map<u64, CacheEntry<S>>,
    used: int,
    kept: Map<u64, CacheEntry<S>>,
) -> int {
    used - (bytes_held(m) - bytes_held(kept))
}

/// `k` is what a cache that holds `m` gives up, for some order in which it
/// may be walked.
pub open spec fn gives_up<S>(
    m: Map<u64, CacheEntry<S>>,
    wanted: Seq<u64>,
    pinned: Seq<u64>,
    k: u64,
) -> bool {
    exists|w: Seq<Ranked>| #[trigger]
        is_walk(m, w) && victim_of(w, wanted, pinned) == Some(k)
}

/// What the evictions of one call are held against.
pub struct Pressure {
    pub used: int,
    pub budget: int,
    pub incoming: int,
    pub wanted: Seq<u64>,
    pub pinned: Seq<u64>,
}

/// The entries `ks` leave `m` one after another: each is given up by the
/// cache as it then stands, and only while the incoming bytes do not fit.
pub open spec fn evicted<S>(m: Map<u64, CacheEntry<S>>, p: Pressure, ks: Seq<u64>) -> bool {
    forall|i: int|
        #![trigger ks[i]]
        0 <= i < ks.len() ==> {
            let mi = without(m, ks.take(i));
            &&& used_after(m, p.used, mi) + p.incoming > p.budget
            &&& gives_up(mi, p.wanted, p.pinned, ks[i])
        }
}

/// `kept` is what room making leaves of `m`: some evictions happened, and
/// the incoming bytes fit or no entry that may go is left.
pub open spec fn room_made<S>(
    m: Map<u64, CacheEntry<S>>,
    p: Pressure,
    kept: Map<u64, CacheEntry<S>>,
) -> bool {
    &&& exists|ks: Seq<u64>| #[trigger] evicted(m, p, ks) && kept == without(m, ks)
    &&& used_after(m, p.used, kept) + p.incoming <= p.budget || forall|k: u64| #[trigger]
        kept.contains_key(k) ==> spared(k, p.wanted, p.pinned)
}

/// One entry used once more.
pub open spec fn used_again<S>(e: CacheEntry<S>, tick: u64) -> CacheEntry<S> {
    CacheEntry { freq: (e.freq + 1) as u64, tick, ..e }
}

/// The host cache.
pub struct StreamingStore<S> {
    pub cache: HashMap<u64, CacheEntry<S>>,
    pub used: usize,
    pub budget: usize,
    pub tick: u64,
    pub hits: u64,
    pub misses: u64,
    pub pinned: Vec<u64>,
}

impl<S> StreamingStore<S> {
    /// The byte count never falls short of what the entries hold, so it
    /// never goes below zero on the way down.
    pub open spec fn wf(&self) -> bool {
        &&& self.cache@.dom().finite()
        &&& bytes_held(self.cache@) <= self.used
    }

    /// What evictions are held against when `incoming` bytes are to fit
    /// and the slabs at `wanted` are to stay.
    pub open spec fn pressure(&self, incoming: int, wanted: Seq<u64>) -> Pressure {
        Pressure {
            used: self.used as int,
            budget: self.budget as int,
            incoming,
            wanted,
            pinned: self.pinned@,
        }
    }

    /// An empty cache with a byte budget.
    pub fn open(budget: usize) -> (s: StreamingStore<S>)
        ensures
            s.wf(),
            s.cache@ == Map::<u64, CacheEntry<S>>::empty(),
            s.used == 0,
            s.budget == budget,
            s.tick == 0,
            s.hits == 0,
            s.misses == 0,
            s.pinned@ == Seq::<u64>::empty(),
    {
        StreamingStore {
            cache: HashMap::new(),
            used: 0,
            budget,
            tick: 0,
            hits: 0,
            misses: 0,
            pinned: Vec::new(),
        }
    }

    /// Start resolving a batch of reads.
    pub fn begin_resolve(&mut self)
        requires
            old(self).wf(),
            old(self).tick < u64::MAX,
        ensures
            final(self).wf(),
            *final(self) == (StreamingStore { tick: (old(self).tick + 1) as u64, ..*old(self) }),
    {
        self.tick = self.tick + 1;
    }

    fn use_entry(&mut self, offset: u64) -> (r: bool)
        requires
            old(self).wf(),
            old(self).cache@.contains_key(offset) ==> old(self).cache@[offset].freq < u64::MAX,
        ensures
            final(self).wf(),
            r == old(self).cache@.contains_key(offset),
            final(self).cache@ == if r {
                old(self).cache@.insert(
                    offset,
                    used_again(old(self).cache@[offset], old(self).tick),
                )
            } else {
                old(self).cache@
            },
            final(self).used == old(self).used,
            final(self).budget == old(self).budget,
            final(self).tick == old(self).tick,
            final(self).hits == old(self).hits,
            final(self).misses == old(self).misses,
            final(self).pinned == old(self).pinned,
    {
        let ghost m = self.cache@;
        match self.cache.remove(&offset) {
            Some(e) => {
                let e2 = CacheEntry {
                    slab: e.slab,
                    bytes: e.bytes,
                    freq: e.freq + 1,
                    tick: self.tick,
                };
                self.cache.insert(offset, e2);
                proof {
                    lemma_bytes_remove(m, offset);
                    lemma_bytes_insert(m, offset, used_again(m[offset], self.tick));
                    assert(self.cache@ =~= m.insert(offset, used_again(m[offset], self.tick)));
                }
                true
            },
            None => {
                assert(m.remove(offset) =~= m);
                false
            },
        }
    }

    /// Look one read up. A cached slab counts as a hit and moves up; a
    /// missing one counts as a miss.
    pub fn want(&mut self, offset: u64) -> (hit: bool)
        requires
            old(self).wf(),
            old(self).cache@.contains_key(offset) ==> old(self).cache@[offset].freq < u64::MAX,
            old(self).hits < u64::MAX,
            old(self).misses < u64::MAX,
        ensures
            final(self).wf(),
            hit == old(self).cache@.contains_key(offset),
            final(self).cache@ == if hit {
                old(self).cache@.insert(
                    offset,
                    used_again(old(self).cache@[offset], old(self).tick),
                )
            } else {
                old(self).cache@
            },
            final(self).hits == old(self).hits + (if hit { 1int } else { 0 }),
            final(self).misses == old(self).misses + (if hit { 0int } else { 1 }),
            final(self).used == old(self).used,
            final(self).budget == old(self).budget,
            final(self).tick == old(self).tick,
            final(self).pinned == old(self).pinned,
    {
        let hit: bool = self.use_entry(offset);
        if hit {
            self.hits = self.hits + 1;
        } else {
            self.misses = self.misses + 1;
        }
        hit
    }

    /// Look a slab up for a reader that has no use for a miss: a cached one
    /// counts as a hit and moves up, a missing one counts as nothing.
    pub fn peek_hit(&mut self, offset: u64) -> (hit: bool)
        requires
            old(self).wf(),
            old(self).cache@.contains_key(offset) ==> old(self).cache@[offset].freq < u64::MAX,
            old(self).hits < u64::MAX,
        ensures
            final(self).wf(),
            hit == old(self).cache@.contains_key(offset),
            final(self).cache@ == if hit {
                old(self).cache@.insert(
                    offset,
                    used_again(old(self).cache@[offset], old(self).tick),
                )
            } else {
                old(self).cache@
            },
            final(self).hits == old(self).hits + (if hit { 1int } else { 0 }),
            final(self).misses == old(self).misses,
            final(self).used == old(self).used,
            final(self).budget == old(self).budget,
            final(self).tick == old(self).tick,
            final(self).pinned == old(self).pinned,
    {
        let hit: bool = self.use_entry(offset);
        if hit {
            self.hits = self.hits + 1;
        }
        hit
    }

    /// The entries in the order in which the map is walked.
    pub fn walk(&self) -> (w: Vec<Ranked>)
        requires
            self.wf(),
        ensures
            is_walk(self.cache@, w@),
    {
        let mut w: Vec<Ranked> = Vec::new();
        for kv in it: self.cache.iter()
            invariant
                it.seq().len() == self.cache@.dom().len(),
                forall|i: int|
                    0 <= i < it.seq().len() ==> self.cache@.contains_key(*(#[trigger] it.seq()[i]).0)
                        && self.cache@[*it.seq()[i].0] == *it.seq()[i].1,
                w@.len() == it.index(),
                forall|k: u64| #[trigger]
                    self.cache@.contains_key(k) ==> listed(w@, k) || exists|j: int|
                        it.index() <= j < it.seq().len() && *(#[trigger] it.seq()[j]).0 == k,
                forall|i: int|
                    0 <= i < w@.len() ==> (#[trigger] w@[i]).key == *it.seq()[i].0 && w@[i].freq
                        == it.seq()[i].1.freq && w@[i].tick == it.seq()[i].1.tick,
        {
            let ghost before = w@;
            w.push(Ranked { key: *kv.0, freq: kv.1.freq, tick: kv.1.tick });
            proof {
                assert forall|k: u64| #[trigger] self.cache@.contains_key(k) implies listed(w@, k)
                    || exists|j: int|
                    it.index() + 1 <= j < it.seq().len() && *(#[trigger] it.seq()[j]).0 == k by {
                    if listed(before, k) {
                        let i = choose|i: int| 0 <= i < before.len() && (#[trigger] before[i]).key == k;
                        assert(w@[i].key == k);
                    } else {
                        let j = choose|j: int|
                            it.index() <= j < it.seq().len() && *(#[trigger] it.seq()[j]).0 == k;
                        if j == it.index() {
                            assert(w@[j].key == k);
                        }
                    }
                }
            }
        }
        w
    }

    /// Give entries up until `incoming` more bytes fit the budget or none
    /// may go. Wanted and pinned entries stay.
    #[verifier::rlimit(80)]
    #[verifier::spinoff_prover]
    pub fn make_room(&mut self, incoming: usize, wanted: &Vec<Read>)
        requires
            old(self).wf(),
            old(self).used + incoming <= usize::MAX,
        ensures
            final(self).wf(),
            thinned(
                old(self).cache@,
                final(self).cache@,
                offsets(wanted@),
                old(self).pinned@,
            ),
            final(self).used <= old(self).used,
            old(self).used - final(self).used == bytes_held(old(self).cache@) - bytes_held(
                final(self).cache@,
            ),
            room_made(
                old(self).cache@,
                old(self).pressure(incoming as int, offsets(wanted@)),
                final(self).cache@,
            ),
            final(self).budget == old(self).budget,
            final(self).tick == old(self).tick,
            final(self).hits == old(self).hits,
            final(self).misses == old(self).misses,
            final(self).pinned == old(self).pinned,
    {
        let ghost first = self.cache@;
        let ghost p = self.pressure(incoming as int, offsets(wanted@));
        let ghost mut ks: Seq<u64> = Seq::empty();
        while self.used + incoming > self.budget && self.cache.len() > 0
            invariant
                self.wf(),
                first == old(self).cache@,
                p == old(self).pressure(incoming as int, offsets(wanted@)),
                self.cache@ == without(first, ks),
                self.used == used_after(first, p.used, self.cache@),
                evicted(first, p, ks),
                self.used + incoming <= usize::MAX,
                self.used <= old(self).used,
                old(self).used - self.used == bytes_held(old(self).cache@) - bytes_held(
                    self.cache@,
                ),
                thinned(old(self).cache@, self.cache@, offsets(wanted@), old(self).pinned@),
                self.budget == old(self).budget,
                self.tick == old(self).tick,
                self.hits == old(self).hits,
                self.misses == old(self).misses,
                self.pinned == old(self).pinned,
            decreases self.cache@.dom().len(),
        {
            let ghost m = self.cache@;
            let w = self.walk();
            let v = pick_victim(&w, wanted, &self.pinned);
            proof {
                victim_may_go(w@, offsets(wanted@), self.pinned@);
            }
            match v {
                None => {
                    assert forall|k: u64| #[trigger] self.cache@.contains_key(k) implies spared(
                        k,
                        offsets(wanted@),
                        old(self).pinned@,
                    ) by {
                        assert(listed(w@, k));
                        let i = choose|i: int| 0 <= i < w@.len() && (#[trigger] w@[i]).key == k;
                        assert(spared(w@[i].key, offsets(wanted@), self.pinned@));
                    }
                    assert(room_made(first, p, self.cache@));
                    return ;
                },
                Some(k) => {
                    proof {
                        let i = choose|i: int| 0 <= i < w@.len() && (#[trigger] w@[i]).key == k;
                        assert(m.contains_key(w@[i].key));
                        lemma_bytes_remove(m, k);
                    }
                    match self.cache.remove(&k) {
                        Some(e) => {
                            self.used = self.used - e.bytes;
                        },
                        None => {},
                    }
                    assert(self.cache@ == m.remove(k));
                    proof {
                        let now = ks.push(k);
                        assert(now.drop_last() =~= ks);
                        assert(gives_up(m, p.wanted, p.pinned, k)) by {
                            assert(is_walk(m, w@));
                        }
                        assert forall|i: int|
                            #![trigger now[i]]
                            0 <= i < now.len() implies {
                            let mi = without(first, now.take(i));
                            &&& used_after(first, p.used, mi) + p.incoming > p.budget
                            &&& gives_up(mi, p.wanted, p.pinned, now[i])
                        } by {
                            if i < ks.len() {
                                assert(now.take(i) =~= ks.take(i));
                                assert(now[i] == ks[i]);
                            } else {
                                assert(now.take(i) =~= ks);
                            }
                        }
                        ks = now;
                    }
                },
            }
        }
        proof {
            if self.used + incoming > self.budget {
                assert forall|k: u64| #[trigger] self.cache@.contains_key(k) implies spared(
                    k,
                    offsets(wanted@),
                    old(self).pinned@,
                ) by {
                    assert(self.cache@.dom().contains(k));
                }
            }
            assert(room_made(first, p, self.cache@));
        }
    }

    /// Keep a fetched slab.
    pub fn keep(&mut self, offset: u64, slab: S, bytes: usize)
        requires
            old(self).wf(),
            old(self).used + bytes <= usize::MAX,
        ensures
            final(self).wf(),
            final(self).cache@ == old(self).cache@.insert(
                offset,
                (CacheEntry { slab, bytes, freq: 1, tick: old(self).tick }),
            ),
            final(self).used == old(self).used + bytes,
            !old(self).cache@.contains_key(offset) && old(self).used == bytes_held(
                old(self).cache@,
            ) ==> final(self).used == bytes_held(final(self).cache@),
            final(self).budget == old(self).budget,
            final(self).tick == old(self).tick,
            final(self).hits == old(self).hits,
            final(self).misses == old(self).misses,
            final(self).pinned == old(self).pinned,
    {
        proof {
            lemma_bytes_insert(
                self.cache@,
                offset,
                CacheEntry { slab, bytes, freq: 1, tick: self.tick },
            );
        }
        self.used = self.used + bytes;
        self.cache.insert(offset, CacheEntry { slab, bytes, freq: 1, tick: self.tick });
    }

    /// Take over a slab that was fetched ahead of need; one that is already
    /// cached is dropped.
    pub fn absorb(&mut self, offset: u64, slab: S, bytes: usize)
        requires
            old(self).wf(),
            old(self).used + bytes <= usize::MAX,
        ensures
            final(self).wf(),
            if old(self).cache@.contains_key(offset) {
                final(self).cache@ == old(self).cache@ && final(self).used == old(self).used
            } else {
                exists|kept: Map<u64, CacheEntry<S>>|
                    {
                        &&& #[trigger] room_made(
                            old(self).cache@,
                            old(self).pressure(bytes as int, Seq::empty()),
                            kept,
                        )
                        &&& thinned(old(self).cache@, kept, Seq::empty(), old(self).pinned@)
                        &&& final(self).cache@ == kept.insert(
                            offset,
                            (CacheEntry { slab, bytes, freq: 1, tick: old(self).tick }),
                        )
                        &&& final(self).used == used_after(
                            old(self).cache@,
                            old(self).used as int,
                            kept,
                        ) + bytes
                    }
            },
            final(self).budget == old(self).budget,
            final(self).tick == old(self).tick,
            final(self).hits == old(self).hits,
            final(self).misses == old(self).misses,
            final(self).pinned == old(self).pinned,
    {
        if self.cache.contains_key(&offset) {
            return ;
        }
        let none: Vec<Read> = Vec::new();
        self.make_room(bytes, &none);
        let ghost kept = self.cache@;
        proof {
            assert(offsets(none@) =~= Seq::<u64>::empty());
            lemma_bytes_insert(
                kept,
                offset,
                CacheEntry { slab, bytes, freq: 1, tick: self.tick },
            );
        }
        self.keep(offset, slab, bytes);
        assert(room_made(
            old(self).cache@,
            old(self).pressure(bytes as int, Seq::empty()),
            kept,
        ));
    }

    /// Keep the slabs at `offs` from being given up, besides those that are
    /// pinned already.
    pub fn pin(&mut self, offs: &Vec<u64>)
        requires
            old(self).wf(),
        ensures
            final(self).wf(),
            final(self).pinned@ == old(self).pinned@ + offs@,
            final(self).cache@ == old(self).cache@,
            final(self).used == old(self).used,
            final(self).budget == old(self).budget,
            final(self).tick == old(self).tick,
            final(self).hits == old(self).hits,
            final(self).misses == old(self).misses,
    {
        let mut i: usize = 0;
        assert(offs@.take(0) =~= Seq::<u64>::empty());
        while i < offs.len()
            invariant
                i <= offs@.len(),
                self.wf(),
                self.pinned@ =~= old(self).pinned@ + offs@.take(i as int),
                self.cache@ == old(self).cache@,
                self.used == old(self).used,
                self.budget == old(self).budget,
                self.tick == old(self).tick,
                self.hits == old(self).hits,
                self.misses == old(self).misses,
            decreases offs@.len() - i,
        {
            self.pinned.push(offs[i]);
            i = i + 1;
        }
        assert(offs@.take(i as int) =~= offs@);
    }

    /// Nothing differs but what is pinned.
    pub open spec fn same_but_pins(&self, o: &StreamingStore<S>) -> bool {
        &&& self.cache@ == o.cache@
        &&& self.used == o.used
        &&& self.budget == o.budget
        &&& self.tick == o.tick
        &&& self.hits == o.hits
        &&& self.misses == o.misses
    }

    /// Let every slab be given up again: the layer is done.
    pub fn unpin(&mut self)
        requires
            old(self).wf(),
        ensures
            final(self).wf(),
            final(self).pinned@ == Seq::<u64>::empty(),
            final(self).cache@ == old(self).cache@,
            final(self).used == old(self).used,
            final(self).budget == old(self).budget,
            final(self).tick == old(self).tick,
            final(self).hits == old(self).hits,
            final(self).misses == old(self).misses,
    {
        self.pinned = Vec::new();
    }

    /// Forget the hit and miss counts.
    pub fn reset_stats(&mut self)
        requires
            old(self).wf(),
        ensures
            final(self).wf(),
            *final(self) == (StreamingStore { hits: 0, misses: 0, ..*old(self) }),
    {
        self.hits = 0;
        self.misses = 0;
    }

    /// True when the slab at `offset` is cached.
    pub fn contains(&self, offset: u64) -> (r: bool)
        ensures
            r == self.cache@.contains_key(offset),
    {
        self.cache.contains_key(&offset)
    }

    /// The cached slab at `offset`.
    pub fn payload(&self, offset: u64) -> (r: Option<&S>)
        ensures
            match r {
                Some(s) => self.cache@.contains_key(offset) && *s == self.cache@[offset].slab,
                None => !self.cache@.contains_key(offset),
            },
    {
        match self.cache.get(&offset) {
            Some(e) => Some(&e.slab),
            None => None,
        }
    }
}

} // verus!
