//! The CPU expert lane: which experts compute on the host, and how their
//! work is cut into jobs.

use vstd::prelude::*;

use crate::bank::{ExpertBank, Facts};
use crate::store;
use crate::store::{CacheEntry, StreamingStore};
use crate::tensors;
use crate::text;

verus! {

/// What keeps or lets a layer use the lane at all.
pub struct LaneGate {
    pub pool: bool,
    pub n_tok: u32,
    pub unified: bool,
    pub n_embd: u32,
    pub n_ff_exp: u32,
}

/// The lane runs on small batches of a layer whose widths are whole blocks
/// and whose encodings it can multiply.
pub open spec fn lane_open(g: &LaneGate, bank: &ExpertBank) -> bool {
    &&& g.pool
    &&& g.n_tok <= 8
    &&& !g.unified
    &&& g.n_embd % 256 == 0
    &&& g.n_ff_exp % 256 == 0
    &&& bank.gate.quant == bank.up.quant
    &&& tensors::cpu_supports(bank.gate.quant)
    &&& tensors::cpu_supports(bank.down.quant)
}

/// True when a layer may use the lane.
pub fn cpu_on(g: &LaneGate, bank: &ExpertBank) -> (r: bool)
    ensures
        r == lane_open(g, bank),
{
    g.pool && g.n_tok <= 8 && !g.unified && g.n_embd % 256 == 0 && g.n_ff_exp % 256 == 0
        && bank.gate.quant == bank.up.quant && tensors::supported(bank.gate.quant)
        && tensors::supported(bank.down.quant)
}

/// The lane looks an expert up in the host cache: a routed expert that no
/// tier holds, that the draft layer does not hold and, unless the lane may
/// take such experts over, that the device cache does not hold.
pub open spec fn probed(e: u32, f: Facts, n_expert: u32, steal: bool) -> bool {
    e < n_expert && f.tier is None && (steal || !f.dev_any) && !f.mtp
}

/// Experts the lane takes among the first `n`: those it looks up and finds
/// in host memory whole, up to a cap.
pub open spec fn lane_members(
    d: Seq<u32>,
    facts: Seq<Facts>,
    n_expert: u32,
    steal: bool,
    cap: Option<usize>,
    n: int,
) -> Seq<u32>
    decreases n,
{
    if n <= 0 {
        Seq::empty()
    } else {
        let head = lane_members(d, facts, n_expert, steal, cap, n - 1);
        if probed(d[n - 1], facts[n - 1], n_expert, steal) && facts[n - 1].host_all && (
        cap matches Some(c) ==> head.len() < c) {
            head.push(d[n - 1])
        } else {
            head
        }
    }
}

/// Offsets the lane looks up among the first `n` experts, in order.
pub open spec fn probe_offsets(
    bank: &ExpertBank,
    d: Seq<u32>,
    facts: Seq<Facts>,
    steal: bool,
    n: int,
) -> Seq<u64>
    decreases n,
{
    if n <= 0 {
        Seq::empty()
    } else {
        let head = probe_offsets(bank, d, facts, steal, n - 1);
        if probed(d[n - 1], facts[n - 1], bank.n_expert, steal) {
            head + store::offsets(bank.slabs(d[n - 1]))
        } else {
            head
        }
    }
}

/// The cache after looking up `offs` in order: each cached one used once
/// more.
pub open spec fn looked_up<S>(
    m: Map<u64, CacheEntry<S>>,
    tick: u64,
    offs: Seq<u64>,
) -> Map<u64, CacheEntry<S>>
    decreases offs.len(),
{
    if offs.len() == 0 {
        m
    } else {
        let prior = looked_up(m, tick, offs.drop_last());
        if prior.contains_key(offs.last()) {
            prior.insert(offs.last(), store::used_again(prior[offs.last()], tick))
        } else {
            prior
        }
    }
}

/// How many of `offs` are cached.
pub open spec fn cached_count<S>(m: Map<u64, CacheEntry<S>>, offs: Seq<u64>) -> nat
    decreases offs.len(),
{
    if offs.len() == 0 {
        0
    } else {
        cached_count(m, offs.drop_last()) + if m.contains_key(offs.last()) { 1nat } else { 0nat }
    }
}

pub proof fn lemma_looked_up<S>(m: Map<u64, CacheEntry<S>>, tick: u64, offs: Seq<u64>)
    ensures
        looked_up(m, tick, offs).dom() == m.dom(),
        forall|k: u64| #[trigger]
            m.contains_key(k) ==> looked_up(m, tick, offs)[k].freq <= m[k].freq + offs.len(),
        cached_count(m, offs) <= offs.len(),
    decreases offs.len(),
{
    if offs.len() > 0 {
        lemma_looked_up(m, tick, offs.drop_last());
        let prior = looked_up(m, tick, offs.drop_last());
        assert(prior.dom() =~= m.dom());
        if prior.contains_key(offs.last()) {
            assert(m.contains_key(offs.last()));
            assert(prior.insert(
                offs.last(),
                store::used_again(prior[offs.last()], tick),
            ).dom() =~= m.dom());
        }
        assert forall|k: u64| #[trigger] m.contains_key(k) implies looked_up(m, tick, offs)[k].freq
            <= m[k].freq + offs.len() by {
            assert(prior[k].freq <= m[k].freq + offs.drop_last().len());
            if k == offs.last() {
                let f = prior[k].freq + 1;
                assert((f as u64) <= f);
            }
        }
    }
}

/// Offsets of the slabs of the first `n` experts of a lane.
pub open spec fn lane_offsets(bank: &ExpertBank, ids: Seq<u32>, n: int) -> Seq<u64>
    decreases n,
{
    if n <= 0 {
        Seq::empty()
    } else {
        lane_offsets(bank, ids, n - 1) + store::offsets(bank.slabs(ids[n - 1]))
    }
}

/// Keep the slabs of a lane's experts in the host cache, besides what is
/// pinned already: its workers read them where they are.
fn pin_lane<S>(st: &mut StreamingStore<S>, bank: &ExpertBank, ids: &Vec<u32>)
    requires
        old(st).wf(),
        bank.wf(),
        forall|i: int| 0 <= i < ids@.len() ==> (#[trigger] ids@[i]) < bank.limit(),
    ensures
        final(st).wf(),
        final(st).pinned@ == old(st).pinned@ + lane_offsets(bank, ids@, ids@.len() as int),
        final(st).cache@ == old(st).cache@,
        final(st).used == old(st).used,
        final(st).budget == old(st).budget,
        final(st).tick == old(st).tick,
        final(st).hits == old(st).hits,
        final(st).misses == old(st).misses,
{
    let mut offs: Vec<u64> = Vec::new();
    let mut i: usize = 0;
    while i < ids.len()
        invariant
            i <= ids@.len(),
            bank.wf(),
            forall|k: int| 0 <= k < ids@.len() ==> (#[trigger] ids@[k]) < bank.limit(),
            offs@ == lane_offsets(bank, ids@, i as int),
        decreases ids@.len() - i,
    {
        let ghost was = offs@;
        let s = bank.slabs_of(ids[i]);
        offs.push(s[0].offset);
        offs.push(s[1].offset);
        offs.push(s[2].offset);
        assert(offs@ =~= was + store::offsets(bank.slabs(ids@[i as int])));
        i = i + 1;
    }
    st.pin(&offs);
}

/// Which slabs the lanes of a layer keep in the host cache: none before it
/// begins and none once it is finished.
#[derive(Clone, Copy, Debug, PartialEq, Eq, Structural)]
pub struct LayerPins {
    pub open: bool,
}

impl LayerPins {
    /// Nothing is kept outside a layer.
    pub open spec fn wf<S>(&self, st: &StreamingStore<S>) -> bool {
        &&& st.wf()
        &&& !self.open ==> st.pinned@ == Seq::<u64>::empty()
    }

    /// No layer has begun.
    pub fn new() -> (p: LayerPins)
        ensures
            !p.open,
    {
        LayerPins { open: false }
    }

    /// A layer begins: the slabs of its first lane are kept, and no others.
    pub fn begin<S>(&mut self, st: &mut StreamingStore<S>, bank: &ExpertBank, ids: &Vec<u32>)
        requires
            old(self).wf(old(st)),
            bank.wf(),
            forall|i: int| 0 <= i < ids@.len() ==> (#[trigger] ids@[i]) < bank.limit(),
        ensures
            final(self).open,
            final(self).wf(final(st)),
            final(st).pinned@ == lane_offsets(bank, ids@, ids@.len() as int),
            final(st).same_but_pins(old(st)),
    {
        st.unpin();
        pin_lane(st, bank, ids);
        assert(st.pinned@ =~= lane_offsets(bank, ids@, ids@.len() as int));
        self.open = true;
    }

    /// The slabs of a further lane are kept besides.
    pub fn land<S>(&mut self, st: &mut StreamingStore<S>, bank: &ExpertBank, ids: &Vec<u32>)
        requires
            old(self).open,
            old(self).wf(old(st)),
            bank.wf(),
            forall|i: int| 0 <= i < ids@.len() ==> (#[trigger] ids@[i]) < bank.limit(),
        ensures
            final(self).open,
            final(self).wf(final(st)),
            final(st).pinned@ == old(st).pinned@ + lane_offsets(bank, ids@, ids@.len() as int),
            final(st).same_but_pins(old(st)),
    {
        pin_lane(st, bank, ids);
    }

    /// The layer is finished, or was given up: nothing is kept any more.
    pub fn finish<S>(&mut self, st: &mut StreamingStore<S>)
        requires
            old(self).wf(old(st)),
        ensures
            !final(self).open,
            final(self).wf(final(st)),
            final(st).pinned@ == Seq::<u64>::empty(),
            final(st).same_but_pins(old(st)),
    {
        st.unpin();
        self.open = false;
    }
}

/// Whatever room is made between the begin and the finish of a layer, the
/// slabs of its lanes that are cached stay cached.
pub proof fn lanes_keep_their_slabs<S>(
    bank: &ExpertBank,
    a: Seq<u32>,
    b: Seq<u32>,
    before: Map<u64, CacheEntry<S>>,
    after: Map<u64, CacheEntry<S>>,
    wanted: Seq<u64>,
    k: u64,
)
    requires
        store::thinned(
            before,
            after,
            wanted,
            lane_offsets(bank, a, a.len() as int) + lane_offsets(bank, b, b.len() as int),
        ),
        before.contains_key(k),
        lane_offsets(bank, a, a.len() as int).contains(k) || lane_offsets(
            bank,
            b,
            b.len() as int,
        ).contains(k),
    ensures
        after.contains_key(k),
        after[k] == before[k],
{
    let x = lane_offsets(bank, a, a.len() as int);
    let y = lane_offsets(bank, b, b.len() as int);
    assert((x + y).contains(k)) by {
        if x.contains(k) {
            let i = x.index_of(k);
            assert((x + y)[i] == k);
        } else {
            let i = y.index_of(k);
            assert((x + y)[x.len() + i] == k);
        }
    }
    assert(store::spared(k, wanted, x + y));
}

/// Look the lane's candidates up in the host cache.
pub fn probe<S>(st: &mut StreamingStore<S>, offs: &Vec<u64>)
    requires
        old(st).wf(),
        old(st).hits + offs@.len() <= u64::MAX,
        forall|k: u64| #[trigger]
            old(st).cache@.contains_key(k) ==> old(st).cache@[k].freq + offs@.len() <= u64::MAX,
    ensures
        final(st).wf(),
        final(st).cache@ == looked_up(old(st).cache@, old(st).tick, offs@),
        final(st).hits == old(st).hits + cached_count(old(st).cache@, offs@),
        final(st).misses == old(st).misses,
        final(st).used == old(st).used,
        final(st).budget == old(st).budget,
        final(st).tick == old(st).tick,
        final(st).pinned == old(st).pinned,
{
    let ghost m = st.cache@;
    let ghost h = st.hits;
    let mut i: usize = 0;
    assert(offs@.take(0) =~= Seq::<u64>::empty());
    while i < offs.len()
        invariant
            i <= offs@.len(),
            st.wf(),
            m == old(st).cache@,
            h == old(st).hits,
            h + offs@.len() <= u64::MAX,
            forall|k: u64| #[trigger]
                m.contains_key(k) ==> m[k].freq + offs@.len() <= u64::MAX,
            st.tick == old(st).tick,
            st.cache@ == looked_up(m, st.tick, offs@.take(i as int)),
            st.hits == h + cached_count(m, offs@.take(i as int)),
            st.misses == old(st).misses,
            st.used == old(st).used,
            st.budget == old(st).budget,
            st.pinned == old(st).pinned,
        decreases offs@.len() - i,
    {
        let o: u64 = offs[i];
        proof {
            let a = offs@.take(i as int);
            assert(offs@.take(i + 1).drop_last() =~= a);
            assert(offs@.take(i + 1).last() == o);
            lemma_looked_up(m, st.tick, a);
            assert(looked_up(m, st.tick, a).contains_key(o) <==> m.contains_key(o)) by {
                assert(looked_up(m, st.tick, a).dom().contains(o) <==> m.dom().contains(o));
            }
        }
        st.peek_hit(o);
        i = i + 1;
    }
    assert(offs@.take(i as int) =~= offs@);
}

/// Offsets the lane looks up, in order.
pub fn lane_probes(bank: &ExpertBank, d: &Vec<u32>, facts: &Vec<Facts>, steal: bool) -> (offs: Vec<
    u64,
>)
    requires
        bank.wf(),
        facts@.len() == d@.len(),
        forall|i: int| 0 <= i < d@.len() ==> (#[trigger] d@[i]) < bank.limit(),
    ensures
        offs@ == probe_offsets(bank, d@, facts@, steal, d@.len() as int),
{
    let mut out: Vec<u64> = Vec::new();
    let mut i: usize = 0;
    while i < d.len()
        invariant
            i <= d@.len(),
            bank.wf(),
            facts@.len() == d@.len(),
            forall|k: int| 0 <= k < d@.len() ==> (#[trigger] d@[k]) < bank.limit(),
            out@ == probe_offsets(bank, d@, facts@, steal, i as int),
        decreases d@.len() - i,
    {
        let e: u32 = d[i];
        let f: Facts = facts[i];
        let ghost was = out@;
        if e < bank.n_expert && f.tier.is_none() && (steal || !f.dev_any) && !f.mtp {
            let s = bank.slabs_of(e);
            out.push(s[0].offset);
            out.push(s[1].offset);
            out.push(s[2].offset);
            assert(out@ =~= was + store::offsets(bank.slabs(e)));
        }
        i = i + 1;
    }
    out
}

/// Experts that compute on the host from slabs already in memory.
pub fn lane_a(d: &Vec<u32>, facts: &Vec<Facts>, n_expert: u32, steal: bool, cap: Option<usize>) -> (
r: Vec<u32>)
    requires
        facts@.len() == d@.len(),
    ensures
        r@ == lane_members(d@, facts@, n_expert, steal, cap, d@.len() as int),
{
    let mut out: Vec<u32> = Vec::new();
    let mut i: usize = 0;
    while i < d.len()
        invariant
            i <= d@.len(),
            facts@.len() == d@.len(),
            out@ == lane_members(d@, facts@, n_expert, steal, cap, i as int),
        decreases d@.len() - i,
    {
        let e: u32 = d[i];
        let f: Facts = facts[i];
        let room: bool = match cap {
            Some(c) => out.len() < c,
            None => true,
        };
        if e < n_expert && f.tier.is_none() && (steal || !f.dev_any) && !f.mtp && f.host_all
            && room {
            out.push(e);
        }
        i = i + 1;
    }
    out
}

/// Experts among the first `n` whose slabs all have to come from disk, up to
/// a cap: they compute where they land.
pub open spec fn landing_members(
    d: Seq<u32>,
    facts: Seq<Facts>,
    n_expert: u32,
    taken: Seq<u32>,
    cap: usize,
    n: int,
) -> Seq<u32>
    decreases n,
{
    if n <= 0 {
        Seq::empty()
    } else {
        let head = landing_members(d, facts, n_expert, taken, cap, n - 1);
        let f = facts[n - 1];
        if d[n - 1] < n_expert && f.tier is None && !taken.contains(d[n - 1]) && head.len() < cap
            && !f.mtp && !f.host_any && !f.dev_any {
            head.push(d[n - 1])
        } else {
            head
        }
    }
}

/// True when `v` lists `e`.
pub fn lists(v: &Vec<u32>, e: u32) -> (r: bool)
    ensures
        r == v@.contains(e),
{
    let mut i: usize = 0;
    while i < v.len()
        invariant
            i <= v@.len(),
            forall|k: int| 0 <= k < i ==> v@[k] != e,
        decreases v@.len() - i,
    {
        if v[i] == e {
            assert(v@.contains(e));
            return true;
        }
        i = i + 1;
    }
    false
}

/// Experts that compute on the host from slabs the disk is about to deliver.
pub fn lane_b(d: &Vec<u32>, facts: &Vec<Facts>, n_expert: u32, taken: &Vec<u32>, cap: usize) -> (r:
    Vec<u32>)
    requires
        facts@.len() == d@.len(),
    ensures
        r@ == landing_members(d@, facts@, n_expert, taken@, cap, d@.len() as int),
{
    let mut out: Vec<u32> = Vec::new();
    let mut i: usize = 0;
    while i < d.len()
        invariant
            i <= d@.len(),
            facts@.len() == d@.len(),
            out@ == landing_members(d@, facts@, n_expert, taken@, cap, i as int),
        decreases d@.len() - i,
    {
        let e: u32 = d[i];
        let f: Facts = facts[i];
        if e < n_expert && f.tier.is_none() && !lists(taken, e) && out.len() < cap && !f.mtp
            && !f.host_any && !f.dev_any {
            out.push(e);
        }
        i = i + 1;
    }
    out
}

/// No expert is on both lanes, and no lane expert is in a tier.
pub proof fn lanes_are_disjoint(
    d: Seq<u32>,
    facts: Seq<Facts>,
    n_expert: u32,
    steal: bool,
    cap_a: Option<usize>,
    cap_b: usize,
    e: u32,
)
    requires
        facts.len() == d.len(),
    ensures
        ({
            let a = lane_members(d, facts, n_expert, steal, cap_a, d.len() as int);
            let b = landing_members(d, facts, n_expert, a, cap_b, d.len() as int);
            &&& !(a.contains(e) && b.contains(e))
            &&& a.contains(e) || b.contains(e) ==> exists|i: int|
                0 <= i < d.len() && #[trigger] d[i] == e && facts[i].tier is None
        }),
{
    let a = lane_members(d, facts, n_expert, steal, cap_a, d.len() as int);
    lemma_members(d, facts, n_expert, steal, cap_a, d.len() as int, e);
    lemma_landing(d, facts, n_expert, a, cap_b, d.len() as int, e);
}

proof fn lemma_members(
    d: Seq<u32>,
    facts: Seq<Facts>,
    n_expert: u32,
    steal: bool,
    cap: Option<usize>,
    n: int,
    e: u32,
)
    requires
        n <= d.len(),
        facts.len() == d.len(),
    ensures
        lane_members(d, facts, n_expert, steal, cap, n).contains(e) ==> exists|i: int|
            0 <= i < n && #[trigger] d[i] == e && facts[i].tier is None,
    decreases n,
{
    if n > 0 {
        lemma_members(d, facts, n_expert, steal, cap, n - 1, e);
        let all = lane_members(d, facts, n_expert, steal, cap, n);
        let head = lane_members(d, facts, n_expert, steal, cap, n - 1);
        if all.contains(e) && !head.contains(e) {
            let k = choose|k: int| 0 <= k < all.len() && all[k] == e;
            if k < head.len() {
                assert(head[k] == e);
            }
            assert(d[n - 1] == e);
        }
    }
}

proof fn lemma_landing(
    d: Seq<u32>,
    facts: Seq<Facts>,
    n_expert: u32,
    taken: Seq<u32>,
    cap: usize,
    n: int,
    e: u32,
)
    requires
        n <= d.len(),
        facts.len() == d.len(),
    ensures
        landing_members(d, facts, n_expert, taken, cap, n).contains(e) ==> !taken.contains(e)
            && exists|i: int| 0 <= i < n && #[trigger] d[i] == e && facts[i].tier is None,
    decreases n,
{
    if n > 0 {
        lemma_landing(d, facts, n_expert, taken, cap, n - 1, e);
        let all = landing_members(d, facts, n_expert, taken, cap, n);
        let head = landing_members(d, facts, n_expert, taken, cap, n - 1);
        if all.contains(e) && !head.contains(e) {
            let k = choose|k: int| 0 <= k < all.len() && all[k] == e;
            if k < head.len() {
                assert(head[k] == e);
            }
            assert(d[n - 1] == e);
        }
    }
}

/// Number of worker threads for a setting: empty, `0` and `off` mean none,
/// `1` and `on` half the cores less two, anything else is the number itself.
pub open spec fn threads_of(v: Seq<char>, cores: usize) -> Option<usize> {
    if v == ""@ || v == "0"@ || v == "off"@ {
        None
    } else if v == "1"@ || v == "on"@ {
        Some(if cores / 2 > 3 { (cores / 2 - 2) as usize } else { 1 })
    } else {
        match text::number_upto(v, usize::MAX as nat) {
            Some(n) => Some(n as usize),
            None => None,
        }
    }
}

/// Number of worker threads for a setting.
pub fn pool_threads(v: &str, cores: usize) -> (r: Option<usize>)
    ensures
        r == threads_of(v@, cores),
{
    if text::same(v, "") || text::same(v, "0") || text::same(v, "off") {
        return None;
    }
    if text::same(v, "1") || text::same(v, "on") {
        return Some(if cores / 2 > 3 { cores / 2 - 2 } else { 1 });
    }
    text::parse_usize(v)
}

/// An address handed to a worker.
#[derive(Clone, Copy, Debug, PartialEq, Eq, Structural)]
pub struct SendPtr(pub usize);

impl SendPtr {
    /// The address.
    pub fn get(self) -> (a: usize)
        ensures
            a == self.0,
    {
        self.0
    }
}

/// Work waiting for the worker threads, and how much of it is not yet joined.
pub struct Pool<J> {
    pub threads: usize,
    pub queue: Vec<J>,
    pub outstanding: usize,
    /// Every job that was ever submitted, in order.
    pub asked: Ghost<Seq<J>>,
    /// Every job that was ever handed out, in order.
    pub given: Ghost<Seq<J>>,
    /// How many jobs were joined.
    pub joined: Ghost<nat>,
}

impl<J> Pool<J> {
    /// What was submitted was handed out, once, or waits; and only what was
    /// handed out is joined.
    pub open spec fn wf(&self) -> bool {
        &&& self.asked@ == self.given@ + self.queue@
        &&& self.asked@.len() == self.joined@ + self.outstanding
        &&& self.joined@ <= self.given@.len()
    }

    /// A pool with nothing to do.
    pub fn new(threads: usize) -> (p: Pool<J>)
        ensures
            p.wf(),
            p.threads == threads,
            p.queue@ == Seq::<J>::empty(),
            p.outstanding == 0,
            p.asked@ == Seq::<J>::empty(),
            p.given@ == Seq::<J>::empty(),
            p.joined@ == 0,
    {
        let p = Pool {
            threads,
            queue: Vec::new(),
            outstanding: 0,
            asked: Ghost(Seq::empty()),
            given: Ghost(Seq::empty()),
            joined: Ghost(0),
        };
        assert(p.asked@ =~= p.given@ + p.queue@);
        p
    }

    /// Queue jobs for the workers; the count is what to wait for.
    pub fn submit(&mut self, jobs: Vec<J>) -> (n: usize)
        requires
            old(self).wf(),
            old(self).outstanding + jobs@.len() <= usize::MAX,
        ensures
            final(self).wf(),
            n == jobs@.len(),
            final(self).queue@ == old(self).queue@ + jobs@,
            final(self).outstanding == old(self).outstanding + n,
            final(self).threads == old(self).threads,
            final(self).asked@ == old(self).asked@ + jobs@,
            final(self).given@ == old(self).given@,
            final(self).joined@ == old(self).joined@,
    {
        let n: usize = jobs.len();
        let ghost more = jobs@;
        let mut jobs = jobs;
        self.queue.append(&mut jobs);
        self.outstanding = self.outstanding + n;
        self.asked = Ghost(self.asked@ + more);
        assert(self.asked@ =~= self.given@ + self.queue@);
        n
    }

    /// Hand the queued jobs out, oldest first.
    pub fn dispatch(&mut self) -> (jobs: Vec<J>)
        requires
            old(self).wf(),
        ensures
            final(self).wf(),
            jobs@ == old(self).queue@,
            final(self).queue@ == Seq::<J>::empty(),
            final(self).outstanding == old(self).outstanding,
            final(self).threads == old(self).threads,
            final(self).asked@ == old(self).asked@,
            final(self).given@ == old(self).given@ + jobs@,
            final(self).joined@ == old(self).joined@,
    {
        let mut jobs: Vec<J> = Vec::new();
        jobs.append(&mut self.queue);
        self.given = Ghost(self.given@ + jobs@);
        assert(self.asked@ =~= self.given@ + self.queue@);
        jobs
    }

    /// Join `n` finished jobs, all of which were handed out.
    pub fn wait(&mut self, n: usize)
        requires
            old(self).wf(),
            n + old(self).queue@.len() <= old(self).outstanding,
        ensures
            final(self).wf(),
            final(self).outstanding == old(self).outstanding - n,
            final(self).queue@ == old(self).queue@,
            final(self).threads == old(self).threads,
            final(self).asked@ == old(self).asked@,
            final(self).given@ == old(self).given@,
            final(self).joined@ == old(self).joined@ + n,
    {
        self.outstanding = self.outstanding - n;
        self.joined = Ghost(self.joined@ + n as nat);
    }
}

/// Every submitted job is handed out exactly once: where none waits, the
/// jobs handed out are the jobs submitted, one for one and in order.
pub proof fn every_job_is_handed_out_once<J>(p: &Pool<J>)
    requires
        p.wf(),
        p.queue@.len() == 0,
    ensures
        p.given@ == p.asked@,
        p.given@.to_multiset() == p.asked@.to_multiset(),
{
    assert(p.given@ + p.queue@ =~= p.given@);
}

/// A pool with nothing outstanding has handed out and joined every job.
pub proof fn drained_pool_has_joined_every_job<J>(p: &Pool<J>)
    requires
        p.wf(),
        p.outstanding == 0,
    ensures
        p.queue@.len() == 0,
        p.given@ == p.asked@,
        p.joined@ == p.asked@.len(),
{
    assert(p.asked@.len() == p.given@.len() + p.queue@.len());
    every_job_is_handed_out_once(p);
}

/// Jobs that must be joined before the buffers they write are given back.
#[derive(Clone, Copy, Debug, PartialEq, Eq, Structural)]
pub struct WaitGuard {
    pub n: usize,
}

/// One stretch of rows.
#[derive(Clone, Copy, Debug, PartialEq, Eq, Structural)]
pub struct Tile {
    pub lo: usize,
    pub hi: usize,
}

/// The tiles of `n` rows cut every `step`.
pub open spec fn tiling(n: int, step: int) -> Seq<Tile> {
    Seq::new(
        ((n + step - 1) / step) as nat,
        |i: int|
            Tile {
                lo: (i * step) as usize,
                hi: (if i * step + step < n { i * step + step } else { n }) as usize,
            },
    )
}

/// Cut `n` rows into stretches of `step`.
pub fn tiles(n: usize, step: usize) -> (ts: Vec<Tile>)
    requires
        step > 0,
        n + step <= usize::MAX,
    ensures
        ts@ == tiling(n as int, step as int),
{
    let mut ts: Vec<Tile> = Vec::new();
    let mut lo: usize = 0;
    assert(0 * step == 0) by (nonlinear_arith);
    while lo < n
        invariant
            step > 0,
            n + step <= usize::MAX,
            lo == ts@.len() * step,
            lo < n + step,
            forall|i: int| 0 <= i < ts@.len() ==> #[trigger] ts@[i] == tiling(n as int, step as int)[i],
            ts@.len() <= tiling(n as int, step as int).len(),
        decreases n + step - lo,
    {
        let hi: usize = if lo + step < n { lo + step } else { n };
        let ghost k = ts@.len() as int;
        proof {
            assert((k + 1) * step == k * step + step) by (nonlinear_arith);
            assert(k + 1 <= (n + step - 1) / (step as int)) by (nonlinear_arith)
                requires
                    k * step < n,
                    step > 0,
                    k >= 0,
            ;
        }
        ts.push(Tile { lo, hi });
        lo = lo + step;
    }
    proof {
        let k = ts@.len() as int;
        assert(k >= (n + step - 1) / (step as int)) by (nonlinear_arith)
            requires
                k * step >= n,
                step > 0,
        ;
        assert(ts@ =~= tiling(n as int, step as int));
    }
    ts
}

/// Every row is in exactly one tile.
pub proof fn tiles_cover_once(n: int, step: int, r: int)
    requires
        step > 0,
        0 <= r < n,
        n <= usize::MAX,
    ensures
        0 <= r / step < tiling(n, step).len(),
        forall|i: int|
            0 <= i < tiling(n, step).len() ==> ((#[trigger] tiling(n, step)[i]).lo <= r < tiling(
                n,
                step,
            )[i].hi <==> i == r / step),
{
    let q = r / step;
    assert(q * step <= r < q * step + step) by (nonlinear_arith)
        requires
            q == r / step,
            step > 0,
    ;
    assert(0 <= q) by (nonlinear_arith)
        requires
            q == r / step,
            step > 0,
            r >= 0,
    ;
    assert(q < (n + step - 1) / step) by (nonlinear_arith)
        requires
            q * step <= r,
            r < n,
            step > 0,
    ;
    assert forall|i: int| 0 <= i < tiling(n, step).len() implies ((#[trigger] tiling(
        n,
        step,
    )[i]).lo <= r < tiling(n, step)[i].hi <==> i == q) by {
        assert(i * step < n) by (nonlinear_arith)
            requires
                i < (n + step - 1) / step,
                step > 0,
        ;
        assert(0 <= i * step) by (nonlinear_arith)
            requires
                0 <= i,
                step > 0,
        ;
        if i < q {
            assert((i + 1) * step <= q * step) by (nonlinear_arith)
                requires
                    i + 1 <= q,
                    step > 0,
            ;
            assert((i + 1) * step == i * step + step) by (nonlinear_arith);
        } else if i > q {
            assert((q + 1) * step <= i * step) by (nonlinear_arith)
                requires
                    q + 1 <= i,
                    step > 0,
            ;
            assert((q + 1) * step == q * step + step) by (nonlinear_arith);
        }
    }
}

/// The routed slots among the first `n` that select `e`, in order.
pub open spec fn slots_of(selected: Seq<i32>, e: u32, n: int) -> Seq<usize>
    decreases n,
{
    if n <= 0 {
        Seq::empty()
    } else if selected[n - 1] == e {
        slots_of(selected, e, n - 1).push((n - 1) as usize)
    } else {
        slots_of(selected, e, n - 1)
    }
}

/// The routed slots that each lane expert serves. Slot `s` belongs to token
/// `s / n_used` and carries the route weight at `s`.
pub fn lane_slots(lane: &Vec<u32>, selected: &Vec<i32>) -> (r: Vec<Vec<usize>>)
    ensures
        r@.len() == lane@.len(),
        forall|c: int|
            0 <= c < lane@.len() ==> (#[trigger] r@[c])@ == slots_of(
                selected@,
                lane@[c],
                selected@.len() as int,
            ),
{
    let mut out: Vec<Vec<usize>> = Vec::new();
    let mut c: usize = 0;
    while c < lane.len()
        invariant
            c <= lane@.len(),
            out@.len() == c,
            forall|k: int|
                0 <= k < c ==> (#[trigger] out@[k])@ == slots_of(
                    selected@,
                    lane@[k],
                    selected@.len() as int,
                ),
        decreases lane@.len() - c,
    {
        let e: u32 = lane[c];
        let mut slots: Vec<usize> = Vec::new();
        let mut i: usize = 0;
        while i < selected.len()
            invariant
                i <= selected@.len(),
                slots@ == slots_of(selected@, e, i as int),
            decreases selected@.len() - i,
        {
            if selected[i] >= 0 && selected[i] as u32 == e {
                slots.push(i);
            }
            i = i + 1;
        }
        out.push(slots);
        c = c + 1;
    }
    out
}

/// One term of a token's sum: the lane expert and the row of the middle
/// activations it multiplies.
#[derive(Clone, Copy, Debug, PartialEq, Eq, Structural)]
pub struct Term {
    pub expert: usize,
    pub mid: usize,
}

/// Number of slots served by the first `n` lane experts: where the rows of
/// the next one start.
pub open spec fn mid_base(slots: Seq<Vec<usize>>, n: int) -> nat
    decreases n,
{
    if n <= 0 {
        0
    } else {
        mid_base(slots, n - 1) + slots[n - 1]@.len()
    }
}

/// Terms of token `tok` from one expert's first `n` slots.
pub open spec fn terms_in(
    slots: Seq<usize>,
    n_used: usize,
    tok: usize,
    expert: int,
    base: nat,
    n: int,
) -> Seq<Term>
    decreases n,
{
    if n <= 0 {
        Seq::empty()
    } else {
        let head = terms_in(slots, n_used, tok, expert, base, n - 1);
        if slots[n - 1] as int / n_used as int == tok {
            head.push(Term { expert: expert as usize, mid: (base + n - 1) as usize })
        } else {
            head
        }
    }
}

/// Terms of token `tok` from the first `n` lane experts.
pub open spec fn terms_of(slots: Seq<Vec<usize>>, n_used: usize, tok: usize, n: int) -> Seq<Term>
    decreases n,
{
    if n <= 0 {
        Seq::empty()
    } else {
        terms_of(slots, n_used, tok, n - 1) + terms_in(
            slots[n - 1]@,
            n_used,
            tok,
            n - 1,
            mid_base(slots, n - 1),
            slots[n - 1]@.len() as int,
        )
    }
}

proof fn lemma_mid_base(slots: Seq<Vec<usize>>, a: int, b: int)
    requires
        0 <= a <= b,
    ensures
        mid_base(slots, a) <= mid_base(slots, b),
    decreases b,
{
    if a < b {
        lemma_mid_base(slots, a, b - 1);
    }
}

/// What one token sums over: each lane expert that serves it, in lane order.
pub fn token_terms(slots: &Vec<Vec<usize>>, n_used: usize, tok: usize) -> (r: Vec<Term>)
    requires
        n_used > 0,
        mid_base(slots@, slots@.len() as int) <= usize::MAX,
    ensures
        r@ == terms_of(slots@, n_used, tok, slots@.len() as int),
{
    let mut out: Vec<Term> = Vec::new();
    let mut base: usize = 0;
    let mut c: usize = 0;
    while c < slots.len()
        invariant
            c <= slots@.len(),
            n_used > 0,
            mid_base(slots@, slots@.len() as int) <= usize::MAX,
            base == mid_base(slots@, c as int),
            out@ == terms_of(slots@, n_used, tok, c as int),
        decreases slots@.len() - c,
    {
        let ghost head = out@;
        proof {
            lemma_mid_base(slots@, c + 1, slots@.len() as int);
            assert(mid_base(slots@, c + 1) == base + slots@[c as int]@.len());
        }
        let n: usize = slots[c].len();
        let mut i: usize = 0;
        assert(head + Seq::<Term>::empty() =~= head);
        while i < n
            invariant
                c < slots@.len(),
                i <= n,
                n == slots@[c as int]@.len(),
                n_used > 0,
                base + n <= usize::MAX,
                base == mid_base(slots@, c as int),
                out@ == head + terms_in(
                    slots@[c as int]@,
                    n_used,
                    tok,
                    c as int,
                    base as nat,
                    i as int,
                ),
            decreases n - i,
        {
            let ghost was = out@;
            if slots[c][i] / n_used == tok {
                out.push(Term { expert: c, mid: base + i });
                assert(out@ =~= head + terms_in(
                    slots@[c as int]@,
                    n_used,
                    tok,
                    c as int,
                    base as nat,
                    i + 1,
                ));
            }
            i = i + 1;
        }
        base = base + n;
        c = c + 1;
    }
    out
}

} // verus!
