//! Resolving a batch of reads against the host cache, step by step.
//!
//! Cached slabs are handed over first, in order. What is missing is then
//! fetched together, handed over as it lands and kept. Handing over can
//! fail: before the fetch that ends the resolve at once, and during it what
//! lands is still kept but no longer handed over.

use vstd::prelude::*;

use crate::store;
use crate::store::{CacheEntry, Read, StreamingStore};

verus! {

broadcast use vstd::std_specs::hash::group_hash_axioms;

/// Where a resolve stands.
#[derive(Clone, Copy, Debug, PartialEq, Eq, Structural)]
pub enum Phase {
    /// A cached slab is being handed over.
    Looking,
    /// The missing slabs are being fetched.
    Fetching,
    Over,
}

/// A batch of reads that is being resolved.
pub struct Ensure {
    pub wants: Vec<Read>,
    /// Reads looked up so far.
    pub next: usize,
    /// Those of them that are not cached.
    pub missing: Vec<Read>,
    pub phase: Phase,
    /// Handing over failed.
    pub failed: bool,
}

/// What happened since the last step.
pub enum Event<S> {
    /// The cached slab was handed over, or could not be.
    Placed(bool),
    /// The `i`th missing slab is here; `placed` is false when handing it
    /// over was tried and failed.
    Landed { i: usize, slab: S, bytes: usize, placed: bool },
    /// Every missing slab has landed.
    Fetched,
}

/// What is to be done next.
#[derive(Clone, Copy, Debug, PartialEq, Eq, Structural)]
pub enum Act {
    /// Hand the cached slab at this offset over.
    Place(u64),
    /// Fetch what is missing; hand each slab over as it lands, as long as
    /// none failed.
    Fetch,
    /// Go on with the fetch.
    Wait,
    /// The resolve is over; true when every slab was handed over.
    Finish(bool),
}

/// The part of cache and resolve that looking reads up changes.
#[verifier::ext_equal]
pub struct Look<S> {
    pub cache: Map<u64, CacheEntry<S>>,
    pub hits: int,
    pub misses: int,
    pub missing: Seq<Read>,
    pub next: int,
}

/// Look reads up from the next one on, to the first that is cached: it
/// counts as a hit and moves up. Those before it count as misses.
pub open spec fn look<S>(s: Look<S>, wants: Seq<Read>, tick: u64) -> (Look<S>, Option<u64>)
    decreases wants.len() - s.next,
{
    if s.next >= wants.len() {
        (s, None)
    } else {
        let r = wants[s.next];
        if s.cache.contains_key(r.offset) {
            (
                Look {
                    cache: s.cache.insert(
                        r.offset,
                        store::used_again(s.cache[r.offset], tick),
                    ),
                    hits: s.hits + 1,
                    next: s.next + 1,
                    ..s
                },
                Some(r.offset),
            )
        } else {
            look(
                Look {
                    misses: s.misses + 1,
                    missing: s.missing.push(r),
                    next: s.next + 1,
                    ..s
                },
                wants,
                tick,
            )
        }
    }
}

/// The cache as looking finds it, with `next` reads looked up and `missing`
/// of them not cached.
pub open spec fn look_at<S>(st: &StreamingStore<S>, missing: Seq<Read>, next: int) -> Look<S> {
    Look { cache: st.cache@, hits: st.hits as int, misses: st.misses as int, missing, next }
}

/// From cache `st`, looking `wants` up went on from `s0` and left the cache
/// `st1` and the resolve `e`, which asks for `a`.
pub open spec fn looked<S>(
    st: &StreamingStore<S>,
    tick: u64,
    wants: Seq<Read>,
    s0: Look<S>,
    st1: &StreamingStore<S>,
    e: &Ensure,
    a: Act,
) -> bool {
    let (s, at) = look(s0, wants, tick);
    &&& e.wants@ == wants
    &&& e.next == s.next
    &&& e.missing@ == s.missing
    &&& st1.hits == s.hits
    &&& st1.misses == s.misses
    &&& st1.tick == tick
    &&& st1.budget == st.budget
    &&& st1.pinned == st.pinned
    &&& match at {
        Some(off) => {
            &&& a == Act::Place(off)
            &&& e.phase == Phase::Looking
            &&& st1.cache@ == s.cache
            &&& st1.used == st.used
        },
        None => if s.missing.len() == 0 {
            &&& a == Act::Finish(true)
            &&& e.phase == Phase::Over
            &&& st1.cache@ == s.cache
            &&& st1.used == st.used
        } else {
            &&& a == Act::Fetch
            &&& e.phase == Phase::Fetching
            &&& store::room_made(
                s.cache,
                st.pressure(store::total_len(s.missing) as int, store::offsets(wants)),
                st1.cache@,
            )
            &&& st1.used == store::used_after(s.cache, st.used as int, st1.cache@)
        },
    }
}

/// The counts have room for the reads that are still to be looked up, and
/// the bytes of all reads for being counted.
pub open spec fn counts_fit<S>(st: &StreamingStore<S>, wants: Seq<Read>, next: int) -> bool {
    &&& st.wf()
    &&& st.used + store::total_len(wants) <= usize::MAX
    &&& st.hits + (wants.len() - next) <= u64::MAX
    &&& st.misses + (wants.len() - next) <= u64::MAX
    &&& forall|i: int|
        next <= i < wants.len() && st.cache@.contains_key((#[trigger] wants[i]).offset)
            ==> st.cache@[wants[i].offset].freq + (wants.len() - next) <= u64::MAX
}

/// True when the counts have room for looking all of `wants` up.
pub fn counts_ok<S>(st: &StreamingStore<S>, wants: &Vec<Read>) -> (r: bool)
    requires
        st.wf(),
    ensures
        r == counts_fit(st, wants@, 0),
{
    let n: u64 = wants.len() as u64;
    if st.hits > u64::MAX - n || st.misses > u64::MAX - n {
        return false;
    }
    let mut sum: u128 = st.used as u128;
    let mut i: usize = 0;
    while i < wants.len()
        invariant
            i <= wants@.len(),
            n == wants@.len(),
            sum == st.used + store::total_len(wants@.take(i as int)),
            sum <= usize::MAX,
            forall|k: int|
                0 <= k < i && st.cache@.contains_key((#[trigger] wants@[k]).offset)
                    ==> st.cache@[wants@[k].offset].freq + n <= u64::MAX,
        decreases wants@.len() - i,
    {
        let r: Read = wants[i];
        proof {
            assert(wants@.take(i + 1).drop_last() =~= wants@.take(i as int));
            store::lemma_total_len_take(wants@, i + 1);
        }
        sum = sum + r.len as u128;
        if sum > usize::MAX as u128 {
            return false;
        }
        if let Some(e) = st.cache.get(&r.offset) {
            if e.freq > u64::MAX - n {
                assert(wants@[i as int] == r);
                return false;
            }
        }
        i = i + 1;
    }
    assert(wants@.take(i as int) =~= wants@);
    true
}

impl Ensure {
    /// Reads that were looked up are placed or missing.
    pub open spec fn wf(&self) -> bool {
        &&& self.next <= self.wants@.len()
        &&& store::total_len(self.missing@) <= store::total_len(self.wants@.take(self.next as int))
    }

    /// The resolve can take a step of looking.
    pub open spec fn ready<S>(&self, st: &StreamingStore<S>) -> bool {
        &&& self.wf()
        &&& counts_fit(st, self.wants@, self.next as int)
    }
}

fn look_on<S>(st: &mut StreamingStore<S>, e: &mut Ensure) -> (a: Act)
    requires
        old(e).ready(old(st)),
    ensures
        final(st).wf(),
        final(e).wf(),
        final(e).failed == old(e).failed,
        looked(
            old(st),
            old(st).tick,
            old(e).wants@,
            look_at(old(st), old(e).missing@, old(e).next as int),
            final(st),
            final(e),
            a,
        ),
        a is Place ==> final(e).ready(final(st)),
{
    let ghost first = look_at(st, e.missing@, e.next as int);
    let ghost wants = e.wants@;
    let tick: u64 = st.tick;
    while e.next < e.wants.len()
        invariant
            e.wants@ == wants,
            wants == old(e).wants@,
            first == look_at(old(st), old(e).missing@, old(e).next as int),
            e.failed == old(e).failed,
            e.ready(st),
            tick == st.tick,
            st.tick == old(st).tick,
            st.used == old(st).used,
            st.budget == old(st).budget,
            st.pinned == old(st).pinned,
            look(look_at(st, e.missing@, e.next as int), wants, tick) == look(first, wants, tick),
        decreases wants.len() - e.next,
    {
        let r: Read = e.wants[e.next];
        let ghost at = e.next as int;
        proof {
            assert(wants.take(at + 1).drop_last() =~= wants.take(at));
            assert(wants.take(at + 1).last() == r);
        }
        let hit: bool = st.want(r.offset);
        e.next = e.next + 1;
        if hit {
            e.phase = Phase::Looking;
            return Act::Place(r.offset);
        }
        let ghost was = e.missing@;
        e.missing.push(r);
        assert(e.missing@.drop_last() =~= was);
    }
    if e.missing.len() == 0 {
        e.phase = Phase::Over;
        return Act::Finish(true);
    }
    e.phase = Phase::Fetching;
    proof {
        store::lemma_total_len_take(wants, e.next as int);
    }
    let incoming: usize = store::read_bytes(&e.missing);
    st.make_room(incoming, &e.wants);
    Act::Fetch
}

/// Start to resolve `wants`.
pub fn begin<S>(st: &mut StreamingStore<S>, wants: Vec<Read>) -> (r: (Ensure, Act))
    requires
        counts_fit(old(st), wants@, 0),
        old(st).tick < u64::MAX,
    ensures
        final(st).wf(),
        r.0.wf(),
        !r.0.failed,
        looked(
            old(st),
            (old(st).tick + 1) as u64,
            wants@,
            look_at(old(st), Seq::empty(), 0),
            final(st),
            &r.0,
            r.1,
        ),
        r.1 is Place ==> r.0.ready(final(st)),
{
    st.begin_resolve();
    let mut e = Ensure {
        wants,
        next: 0,
        missing: Vec::new(),
        phase: Phase::Looking,
        failed: false,
    };
    assert(e.missing@ =~= Seq::<Read>::empty());
    let a: Act = look_on(st, &mut e);
    (e, a)
}

/// One step of a resolve.
pub fn step<S>(st: &mut StreamingStore<S>, e: &mut Ensure, ev: Event<S>) -> (a: Act)
    requires
        old(st).wf(),
        old(e).wf(),
        match ev {
            Event::Placed(ok) => old(e).phase == Phase::Looking && old(e).ready(old(st)),
            Event::Landed { i, slab, bytes, placed } => {
                &&& old(e).phase == Phase::Fetching
                &&& i < old(e).missing@.len()
                &&& old(st).used + bytes <= usize::MAX
            },
            Event::Fetched => old(e).phase == Phase::Fetching,
        },
    ensures
        final(st).wf(),
        final(e).wf(),
        final(e).wants@ == old(e).wants@,
        match ev {
            Event::Placed(true) => {
                &&& final(e).failed == old(e).failed
                &&& looked(
                    old(st),
                    old(st).tick,
                    old(e).wants@,
                    look_at(old(st), old(e).missing@, old(e).next as int),
                    final(st),
                    final(e),
                    a,
                )
                &&& a is Place ==> final(e).ready(final(st))
            },
            Event::Placed(false) => {
                &&& a == Act::Finish(false)
                &&& final(e).phase == Phase::Over
                &&& final(e).failed
                &&& final(e).next == old(e).next
                &&& final(e).missing@ == old(e).missing@
                &&& *final(st) == *old(st)
            },
            Event::Landed { i, slab, bytes, placed } => {
                &&& a == Act::Wait
                &&& final(e).phase == Phase::Fetching
                &&& final(e).failed == (old(e).failed || !placed)
                &&& final(e).next == old(e).next
                &&& final(e).missing@ == old(e).missing@
                &&& final(st).cache@ == old(st).cache@.insert(
                    old(e).missing@[i as int].offset,
                    (CacheEntry { slab, bytes, freq: 1, tick: old(st).tick }),
                )
                &&& final(st).used == old(st).used + bytes
                &&& final(st).budget == old(st).budget
                &&& final(st).tick == old(st).tick
                &&& final(st).hits == old(st).hits
                &&& final(st).misses == old(st).misses
                &&& final(st).pinned == old(st).pinned
            },
            Event::Fetched => {
                &&& a == Act::Finish(!old(e).failed)
                &&& final(e).phase == Phase::Over
                &&& final(e).failed == old(e).failed
                &&& final(e).next == old(e).next
                &&& final(e).missing@ == old(e).missing@
                &&& *final(st) == *old(st)
            },
        },
{
    match ev {
        Event::Placed(ok) => {
            if ok {
                return look_on(st, e);
            }
            e.failed = true;
            e.phase = Phase::Over;
            Act::Finish(false)
        },
        Event::Landed { i, slab, bytes, placed } => {
            if !placed {
                e.failed = true;
            }
            let offset: u64 = e.missing[i].offset;
            st.keep(offset, slab, bytes);
            Act::Wait
        },
        Event::Fetched => {
            e.phase = Phase::Over;
            Act::Finish(!e.failed)
        },
    }
}

/// No read is passed over: what looking goes past is missing, in order, but
/// for the cached slab that it stops at.
pub proof fn reads_are_placed_or_missing<S>(s: Look<S>, wants: Seq<Read>, tick: u64)
    requires
        0 <= s.next <= wants.len(),
    ensures
        ({
            let (t, at) = look(s, wants, tick);
            let end = if at is Some { t.next - 1 } else { t.next };
            &&& s.next <= end <= t.next <= wants.len()
            &&& t.missing == s.missing + wants.subrange(s.next, end)
            &&& match at {
                Some(off) => off == wants[end].offset && s.cache.contains_key(off),
                None => end == wants.len() && t.cache == s.cache,
            }
            &&& forall|i: int|
                s.next <= i < end ==> !s.cache.contains_key((#[trigger] wants[i]).offset)
            &&& t.hits == s.hits + (t.next - end)
            &&& t.misses == s.misses + (end - s.next)
        }),
    decreases wants.len() - s.next,
{
    if s.next < wants.len() {
        let r = wants[s.next];
        if !s.cache.contains_key(r.offset) {
            let n = Look {
                misses: s.misses + 1,
                missing: s.missing.push(r),
                next: s.next + 1,
                ..s
            };
            reads_are_placed_or_missing(n, wants, tick);
            let (t, at) = look(s, wants, tick);
            let end = if at is Some { t.next - 1 } else { t.next };
            assert(s.missing.push(r) + wants.subrange(s.next + 1, end) =~= s.missing
                + wants.subrange(s.next, end));
        } else {
            assert(wants.subrange(s.next, s.next) =~= Seq::<Read>::empty());
        }
    } else {
        assert(wants.subrange(s.next, s.next) =~= Seq::<Read>::empty());
    }
}

} // verus!
