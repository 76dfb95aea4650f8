//! How a run divides memory: batch, expert cache, staging, scratch.

use vstd::prelude::*;

use crate::bank::ExpertBank;
use crate::dev_cache::SLAB_SLACK;
use crate::shape::{Family, Shape};
use crate::text;
use crate::words;

verus! {

pub open spec fn larger(a: int, b: int) -> int {
    if a >= b {
        a
    } else {
        b
    }
}

/// Largest slab of one bank.
pub open spec fn bank_slab(b: &ExpertBank) -> int {
    let m = larger(
        larger(b.gate.expert_bytes as int, b.up.expert_bytes as int),
        b.down.expert_bytes as int,
    );
    match b.sink {
        Some(s) => larger(
            larger(larger(m, s@[0].expert_bytes as int), s@[1].expert_bytes as int),
            s@[2].expert_bytes as int,
        ),
        None => m,
    }
}

/// Largest slab of the first `n` banks.
pub open spec fn slab_upto(banks: Seq<ExpertBank>, n: int) -> int
    decreases n,
{
    if n <= 0 {
        0
    } else {
        larger(slab_upto(banks, n - 1), bank_slab(&banks[n - 1]))
    }
}

fn max64(a: u64, b: u64) -> (m: u64)
    ensures
        m == larger(a as int, b as int),
{
    if a >= b {
        a
    } else {
        b
    }
}

/// Largest slab of any bank; zero when no layer streams experts.
pub fn max_slab(banks: &Vec<ExpertBank>) -> (m: u64)
    ensures
        m == slab_upto(banks@, banks@.len() as int),
{
    let mut m: u64 = 0;
    let mut i: usize = 0;
    while i < banks.len()
        invariant
            i <= banks@.len(),
            m == slab_upto(banks@, i as int),
        decreases banks@.len() - i,
    {
        let b = &banks[i];
        let mut x: u64 = max64(
            max64(b.gate.expert_bytes, b.up.expert_bytes),
            b.down.expert_bytes,
        );
        match &b.sink {
            Some(s) => {
                x = max64(
                    max64(max64(x, s[0].expert_bytes), s[1].expert_bytes),
                    s[2].expert_bytes,
                );
            },
            None => {},
        }
        m = max64(m, x);
        i = i + 1;
    }
    m
}

/// A slab fits every slot of that size.
pub proof fn every_slab_fits(banks: Seq<ExpertBank>, i: int, n: int)
    requires
        0 <= i < n <= banks.len(),
    ensures
        bank_slab(&banks[i]) <= slab_upto(banks, n),
    decreases n,
{
    if i < n - 1 {
        every_slab_fits(banks, i, n - 1);
    }
}

/// Experts a token is routed to.
pub open spec fn route_k(s: &Shape) -> int {
    s.n_expert_used - s.n_shexp_sink
}

/// Staged bytes of one layer in the worst case of `c` tokens: every routed
/// expert another one until all are in, and the shared bank along.
pub open spec fn bank_stage(b: &ExpertBank, s: &Shape, c: int) -> int {
    let triple = b.gate.expert_bytes + (if b.fused_up_off != 0 {
        0
    } else {
        b.up.expert_bytes as int
    }) + b.down.expert_bytes;
    let all = c * larger(route_k(s), 1);
    let distinct = if all <= s.n_expert { all } else { s.n_expert as int };
    distinct * triple + match b.sink {
        Some(x) => s.n_shexp_sink * (x@[0].expert_bytes + x@[1].expert_bytes + x@[2].expert_bytes),
        None => 0,
    }
}

/// Staged bytes in the worst case, over the first `n` layers.
pub open spec fn stage_worst(banks: Seq<ExpertBank>, s: &Shape, c: int, n: int) -> int
    decreases n,
{
    if n <= 0 {
        0
    } else {
        larger(stage_worst(banks, s, c, n - 1), bank_stage(&banks[n - 1], s, c))
    }
}

fn bank_staging(b: &ExpertBank, s: &Shape, c: u32) -> (n: u128)
    requires
        s.n_shexp_sink <= s.n_expert_used,
    ensures
        n == bank_stage(b, s, c as int),
{
    let up: u128 = if b.fused_up_off != 0 {
        0
    } else {
        b.up.expert_bytes as u128
    };
    let triple: u128 = b.gate.expert_bytes as u128 + up + b.down.expert_bytes as u128;
    let k: u32 = s.n_expert_used - s.n_shexp_sink;
    let per: u32 = if k >= 1 {
        k
    } else {
        1
    };
    proof {
        assert(c * per <= 0xffff_ffff * 0xffff_ffff) by (nonlinear_arith)
            requires
                c <= 0xffff_ffff,
                per <= 0xffff_ffff,
        ;
    }
    let all: u64 = c as u64 * per as u64;
    let distinct: u64 = if all <= s.n_expert as u64 {
        all
    } else {
        s.n_expert as u64
    };
    proof {
        assert(distinct * triple <= 0xffff_ffff * 0x3_0000_0000_0000_0000) by (nonlinear_arith)
            requires
                0 <= distinct <= 0xffff_ffff,
                0 <= triple <= 0x3_0000_0000_0000_0000,
        ;
    }
    let mut n: u128 = distinct as u128 * triple;
    match &b.sink {
        Some(x) => {
            let t: u128 = x[0].expert_bytes as u128 + x[1].expert_bytes as u128
                + x[2].expert_bytes as u128;
            proof {
                assert(s.n_shexp_sink * t <= 0xffff_ffff * 0x3_0000_0000_0000_0000)
                    by (nonlinear_arith)
                    requires
                        s.n_shexp_sink <= 0xffff_ffff,
                        0 <= t <= 0x3_0000_0000_0000_0000,
                ;
            }
            n = n + s.n_shexp_sink as u128 * t;
        },
        None => {},
    }
    n
}

/// Staged bytes in the worst case of `c` tokens.
pub fn worst_staging(banks: &Vec<ExpertBank>, s: &Shape, c: u32) -> (n: u128)
    requires
        s.n_shexp_sink <= s.n_expert_used,
    ensures
        n == stage_worst(banks@, s, c as int, banks@.len() as int),
{
    let mut n: u128 = 0;
    let mut i: usize = 0;
    while i < banks.len()
        invariant
            i <= banks@.len(),
            s.n_shexp_sink <= s.n_expert_used,
            n == stage_worst(banks@, s, c as int, i as int),
        decreases banks@.len() - i,
    {
        let b: u128 = bank_staging(&banks[i], s, c);
        if b > n {
            n = b;
        }
        i = i + 1;
    }
    n
}

/// The largest chunk, halving from `c`, whose staging stays within `share`;
/// four or less are never halved.
pub open spec fn halved(banks: Seq<ExpertBank>, s: &Shape, c: int, share: int) -> int
    decreases c,
{
    if c > 4 && stage_worst(banks, s, c, banks.len() as int) > share {
        halved(banks, s, c / 2, share)
    } else {
        c
    }
}

/// Device memory left to itself: context growth, allocator slack, kernels.
pub const DEVICE_RESERVE: usize = 0x3000_0000;

/// Smallest expert cache.
pub const CACHE_FLOOR: usize = 0x1000_0000;

/// How the primary's memory is divided.
#[derive(Clone, Copy, Debug, PartialEq, Eq, Structural)]
pub struct Budget {
    /// Tokens of one prefill chunk.
    pub chunk: u32,
    /// Bytes of the staging arena, without its slack.
    pub staging: usize,
    /// Bytes of the expert cache.
    pub cache: usize,
}

pub open spec fn pool_of(free: int) -> int {
    if free >= DEVICE_RESERVE {
        free - DEVICE_RESERVE
    } else {
        0
    }
}

/// Tokens of one prefill chunk.
pub open spec fn chunk_of(banks: Seq<ExpertBank>, s: &Shape, free: int, max_batch: u32, forced: bool) -> int {
    if forced {
        max_batch as int
    } else {
        larger(halved(banks, s, max_batch as int, pool_of(free) / 3), 1)
    }
}

/// Bytes of the staging arena: the chunk's worst case, and at least one
/// token's experts.
pub open spec fn staging_of(banks: Seq<ExpertBank>, s: &Shape, chunk: int) -> int {
    larger(
        stage_worst(banks, s, chunk, banks.len() as int),
        s.n_expert_used * 3 * slab_upto(banks, banks.len() as int),
    )
}

/// Bytes of the expert cache: the setting, or what staging leaves.
pub open spec fn cache_of(free: int, staging: int, setting: Option<usize>) -> int {
    match setting {
        Some(b) => larger(b as int, 1),
        None => if pool_of(free) - staging >= CACHE_FLOOR {
            pool_of(free) - staging
        } else {
            CACHE_FLOOR as int
        },
    }
}

/// Divide the primary's memory; `None` when the staging arena has no size in
/// memory.
pub fn solve(
    banks: &Vec<ExpertBank>,
    s: &Shape,
    free: usize,
    max_batch: u32,
    forced: bool,
    setting: Option<usize>,
) -> (r: Option<Budget>)
    requires
        s.n_shexp_sink <= s.n_expert_used,
        max_batch >= 1,
    ensures
        ({
            let chunk = chunk_of(banks@, s, free as int, max_batch, forced);
            let staging = staging_of(banks@, s, chunk);
            match r {
                Some(b) => b.chunk == chunk && b.staging == staging && staging + SLAB_SLACK
                    <= usize::MAX && b.cache == cache_of(free as int, staging, setting),
                None => staging + SLAB_SLACK > usize::MAX,
            }
        }),
        r matches Some(b) ==> 1 <= b.chunk <= max_batch,
{
    let pool: usize = if free >= DEVICE_RESERVE {
        free - DEVICE_RESERVE
    } else {
        0
    };
    let share: u128 = (pool / 3) as u128;
    let mut c: u32 = max_batch;
    if !forced {
        while c > 4 && worst_staging(banks, s, c) > share
            invariant
                1 <= c <= max_batch,
                s.n_shexp_sink <= s.n_expert_used,
                halved(banks@, s, max_batch as int, share as int) == halved(
                    banks@,
                    s,
                    c as int,
                    share as int,
                ),
            decreases c,
        {
            c = c / 2;
        }
        if c < 1 {
            c = 1;
        }
    }
    let worst: u128 = worst_staging(banks, s, c);
    let slab: u64 = max_slab(banks);
    proof {
        assert(s.n_expert_used * 3 * slab <= 0x3_0000_0000 * 0xffff_ffff_ffff_ffff)
            by (nonlinear_arith)
            requires
                s.n_expert_used <= 0xffff_ffff,
                slab <= 0xffff_ffff_ffff_ffff,
        ;
    }
    let one: u128 = s.n_expert_used as u128 * 3 * slab as u128;
    let staging: u128 = if worst >= one {
        worst
    } else {
        one
    };
    if staging > (usize::MAX - SLAB_SLACK) as u128 {
        return None;
    }
    let st: usize = staging as usize;
    let cache: usize = match setting {
        Some(b) => if b >= 1 {
            b
        } else {
            1
        },
        None => if pool >= st && pool - st >= CACHE_FLOOR {
            pool - st
        } else {
            CACHE_FLOOR
        },
    };
    Some(Budget { chunk: c, staging: st, cache })
}

/// Without a cache setting, cache and staging fill the pool exactly wherever
/// the pool has room for the staging and the smallest cache.
pub proof fn budget_fills_the_pool(free: int, staging: int)
    requires
        0 <= staging,
        pool_of(free) >= staging + CACHE_FLOOR,
    ensures
        cache_of(free, staging, None) + staging == pool_of(free),
{
}

/// Prefill staging stays within a third of the pool, unless the chunk is
/// down to four tokens.
pub proof fn chunk_respects_its_share(banks: Seq<ExpertBank>, s: &Shape, c: int, share: int)
    requires
        c >= 1,
    ensures
        ({
            let h = halved(banks, s, c, share);
            h <= 4 || stage_worst(banks, s, h, banks.len() as int) <= share
        }),
    decreases c,
{
    if c > 4 && stage_worst(banks, s, c, banks.len() as int) > share {
        chunk_respects_its_share(banks, s, c / 2, share);
    }
}

/// What helps when the key/value cache starves the experts.
#[derive(Clone, Copy, Debug, PartialEq, Eq, Structural)]
pub enum Remedy {
    /// Store the cache in 8-bit floats, or shorten the context.
    Pack,
    /// Shorten the context: the cache is packed already.
    Shorten,
    /// Shorten the context: this cache cannot be packed.
    ShortenOnly,
}

/// The key/value cache starves the expert budget of the card it shares.
pub fn starved(
    on_primary: bool,
    b: &Budget,
    kv_bytes: usize,
    free: usize,
    can_pack: bool,
    packed: bool,
) -> (r: Option<Remedy>)
    ensures
        r == if on_primary && (b.chunk <= 16 || b.cache < 0x4000_0000) && kv_bytes > (free
            + kv_bytes) / 3 {
            if can_pack && !packed {
                Some(Remedy::Pack)
            } else if can_pack {
                Some(Remedy::Shorten)
            } else {
                Some(Remedy::ShortenOnly)
            }
        } else {
            None
        },
{
    let third: u128 = (free as u128 + kv_bytes as u128) / 3;
    if on_primary && (b.chunk <= 16 || b.cache < 0x4000_0000) && kv_bytes as u128 > third {
        if can_pack && !packed {
            Some(Remedy::Pack)
        } else if can_pack {
            Some(Remedy::Shorten)
        } else {
            Some(Remedy::ShortenOnly)
        }
    } else {
        None
    }
}

/// Rows of logits one verification pass can read.
pub open spec fn spec_rows_of(depth: int, family: Family, ngram: Option<u32>) -> int {
    let a = larger(depth + 1, 2);
    let b = if family == Family::Qwen35 { larger(a, 16) } else { a };
    match ngram {
        Some(d) => larger(b, (if d < 1 { 1int } else if d > 15 { 15 } else { d as int }) + 1),
        None => b,
    }
}

/// Rows of logits one verification pass can read.
pub fn spec_rows(depth: u32, family: Family, ngram: Option<u32>) -> (n: u32)
    requires
        depth < u32::MAX,
    ensures
        n == spec_rows_of(depth as int, family, ngram),
{
    let mut n: u32 = depth + 1;
    if n < 2 {
        n = 2;
    }
    if family == Family::Qwen35 && n < 16 {
        n = 16;
    }
    match ngram {
        Some(d) => {
            let k: u32 = (if d < 1 {
                1
            } else if d > 15 {
                15
            } else {
                d
            }) + 1;
            if n < k {
                n = k;
            }
        },
        None => {},
    }
    n
}

/// Tokens of one batch: the setting, at least one; 256 without one.
pub fn batch_size(setting: Option<&str>) -> (n: u32)
    ensures
        n == match setting {
            Some(v) => match text::number_upto(v@, u32::MAX as nat) {
                Some(b) => if b < 1 {
                    1
                } else {
                    b as u32
                },
                None => 256,
            },
            None => 256,
        },
{
    let n: u32 = match setting {
        Some(v) => match words::parse_u32(v) {
            Some(b) => b,
            None => 256,
        },
        None => 256,
    };
    if n < 1 {
        1
    } else {
        n
    }
}

/// The first of the first `n` lines that starts with `head`.
pub open spec fn line_with(lines: Seq<Seq<char>>, head: Seq<char>, n: int) -> Option<Seq<char>>
    decreases n,
{
    if n <= 0 {
        None
    } else {
        match line_with(lines, head, n - 1) {
            Some(l) => Some(l),
            None => if text::begins_with(lines[n - 1], head) { Some(lines[n - 1]) } else { None },
        }
    }
}

/// Kibibytes of available memory in a memory report.
pub open spec fn available_kb(report: Seq<char>) -> Option<nat> {
    let ls = words::lines(report);
    match line_with(ls, "MemAvailable:"@, ls.len() as int) {
        Some(l) => if words::words(l).len() > 1 {
            text::number_upto(words::words(l)[1], usize::MAX as nat)
        } else {
            None
        },
        None => None,
    }
}

proof fn lemma_line_with(lines: Seq<Seq<char>>, head: Seq<char>, a: int, b: int)
    requires
        a <= b,
        line_with(lines, head, a) is Some,
    ensures
        line_with(lines, head, b) == line_with(lines, head, a),
    decreases b,
{
    if a < b {
        lemma_line_with(lines, head, a, b - 1);
    }
}

fn mem_available(report: &str) -> (r: Option<usize>)
    ensures
        match r {
            Some(n) => available_kb(report@) == Some(n as nat),
            None => available_kb(report@) is None,
        },
{
    let v = text::chars_of(report);
    let head = text::chars_of("MemAvailable:");
    let spans = words::split_lines(&v);
    let ghost ls = words::lines(report@);
    let mut i: usize = 0;
    while i < spans.len()
        invariant
            i <= spans@.len(),
            v@ == report@,
            head@ == "MemAvailable:"@,
            ls == words::lines(report@),
            words::spans_are(v@, spans@, ls),
            line_with(ls, head@, i as int) is None,
        decreases spans@.len() - i,
    {
        let lo: usize = spans[i].lo;
        let hi: usize = spans[i].hi;
        assert(words::span_of(v@, spans@[i as int]) == ls[i as int]);
        let mut line: Vec<char> = Vec::new();
        let mut j: usize = lo;
        while j < hi
            invariant
                lo <= j <= hi <= v@.len(),
                line@ =~= v@.subrange(lo as int, j as int),
            decreases hi - j,
        {
            line.push(v[j]);
            j = j + 1;
        }
        assert(line@ == ls[i as int]);
        assert(line@.skip(0) =~= line@);
        if text::matches_at(&line, 0, &head) {
            proof {
                lemma_line_with(ls, head@, i + 1, ls.len() as int);
            }
            let ws = words::split_words(&v, lo, hi);
            if ws.len() <= 1 {
                return None;
            }
            assert(words::span_of(v@, ws@[1]) == words::words(ls[i as int])[1]);
            return match text::parse_span(&v, ws[1].lo, ws[1].hi) {
                Some(n) => if n <= usize::MAX as u64 {
                    Some(n as usize)
                } else {
                    None
                },
                None => None,
            };
        }
        i = i + 1;
    }
    None
}

/// Gibibytes of the host expert cache: the setting, or what a ceiling and
/// the available memory leave, at least four.
pub open spec fn cache_gb_of(setting: Option<Seq<char>>, offload: bool, report: Option<Seq<char>>) -> int {
    let cap = if offload { 22int } else { 12 };
    let avail = match report {
        Some(r) => match available_kb(r) {
            Some(kb) => kb / 0x10_0000,
            None => (cap + 6) as nat,
        },
        None => (cap + 6) as nat,
    };
    let left = if avail >= 6 { avail - 6 } else { 0 };
    let chosen = larger(if cap <= left { cap } else { left }, 4);
    match setting {
        Some(v) => match text::number_upto(v, usize::MAX as nat) {
            Some(g) => g as int,
            None => chosen,
        },
        None => chosen,
    }
}

/// Gibibytes of the host expert cache.
pub fn cache_gb(setting: Option<&str>, offload: bool, report: Option<&str>) -> (g: usize)
    ensures
        g == cache_gb_of(
            match setting {
                Some(v) => Some(v@),
                None => None,
            },
            offload,
            match report {
                Some(v) => Some(v@),
                None => None,
            },
        ),
{
    match setting {
        Some(v) => match text::parse_usize(v) {
            Some(g) => {
                return g;
            },
            None => {},
        },
        None => {},
    }
    let cap: usize = if offload {
        22
    } else {
        12
    };
    let avail: usize = match report {
        Some(r) => match mem_available(r) {
            Some(kb) => kb / 0x10_0000,
            None => cap + 6,
        },
        None => cap + 6,
    };
    let left: usize = if avail >= 6 {
        avail - 6
    } else {
        0
    };
    let least: usize = if cap <= left {
        cap
    } else {
        left
    };
    if least < 4 {
        4
    } else {
        least
    }
}

/// The key/value cache of this model can be packed.
pub fn can_pack(s: &Shape) -> (r: bool)
    ensures
        r == match s.family {
            Family::Gqa | Family::Dsv4 | Family::Mla => true,
            Family::Qwen35 => s.n_expert != 1,
            Family::K3 => false,
        },
{
    match s.family {
        Family::Gqa | Family::Dsv4 | Family::Mla => true,
        Family::Qwen35 => s.n_expert != 1,
        Family::K3 => false,
    }
}

proof fn lemma_stage_grows(b: &ExpertBank, s: &Shape, c: int, d: int)
    requires
        0 <= c <= d,
    ensures
        bank_stage(b, s, c) <= bank_stage(b, s, d),
{
    let k = larger(route_k(s), 1);
    let triple = b.gate.expert_bytes + (if b.fused_up_off != 0 {
        0
    } else {
        b.up.expert_bytes as int
    }) + b.down.expert_bytes;
    assert(c * k <= d * k) by (nonlinear_arith)
        requires
            0 <= c <= d,
            k >= 1,
    ;
    let p = if c * k <= s.n_expert { c * k } else { s.n_expert as int };
    let q = if d * k <= s.n_expert { d * k } else { s.n_expert as int };
    assert(p * triple <= q * triple) by (nonlinear_arith)
        requires
            p <= q,
            triple >= 0,
    ;
}

proof fn lemma_stage_covers(banks: Seq<ExpertBank>, s: &Shape, c: int, i: int, n: int)
    requires
        0 <= i < n <= banks.len(),
    ensures
        bank_stage(&banks[i], s, c) <= stage_worst(banks, s, c, n),
    decreases n,
{
    if i < n - 1 {
        lemma_stage_covers(banks, s, c, i, n - 1);
    }
}

/// The arena holds the worst case of every layer for any batch of up to a
/// chunk, and at least one token's experts at the largest slab.
pub proof fn arena_holds_the_chunk(banks: Seq<ExpertBank>, s: &Shape, c: int, chunk: int, i: int)
    requires
        0 <= c <= chunk,
        0 <= i < banks.len(),
    ensures
        bank_stage(&banks[i], s, c) <= staging_of(banks, s, chunk),
        s.n_expert_used * 3 * bank_slab(&banks[i]) <= staging_of(banks, s, chunk),
{
    lemma_stage_grows(&banks[i], s, c, chunk);
    lemma_stage_covers(banks, s, chunk, i, banks.len() as int);
    every_slab_fits(banks, i, banks.len() as int);
    let slab = bank_slab(&banks[i]) as int;
    let most = slab_upto(banks, banks.len() as int) as int;
    assert(s.n_expert_used * 3 * slab <= s.n_expert_used * 3 * most) by (nonlinear_arith)
        requires
            slab <= most,
            s.n_expert_used >= 0,
    ;
}

/// The largest slab of a bank is one of its slabs, and none is larger.
pub proof fn largest_slab_is_a_slab(b: &ExpertBank)
    ensures
        bank_slab(b) >= b.gate.expert_bytes && bank_slab(b) >= b.up.expert_bytes && bank_slab(b)
            >= b.down.expert_bytes,
        b.sink matches Some(s) ==> bank_slab(b) >= s@[0].expert_bytes && bank_slab(b)
            >= s@[1].expert_bytes && bank_slab(b) >= s@[2].expert_bytes,
        bank_slab(b) == b.gate.expert_bytes || bank_slab(b) == b.up.expert_bytes || bank_slab(b)
            == b.down.expert_bytes || (b.sink matches Some(s) && (bank_slab(b)
            == s@[0].expert_bytes || bank_slab(b) == s@[1].expert_bytes || bank_slab(b)
            == s@[2].expert_bytes)),
{
}

/// No layer's slabs are larger than what is found, and some layer's are as
/// large; without layers it is zero.
pub proof fn some_slab_is_the_largest(banks: Seq<ExpertBank>, n: int)
    requires
        0 <= n <= banks.len(),
    ensures
        n == 0 ==> slab_upto(banks, n) == 0,
        forall|i: int| 0 <= i < n ==> bank_slab(&#[trigger] banks[i]) <= slab_upto(banks, n),
        n > 0 ==> exists|i: int|
            0 <= i < n && bank_slab(&#[trigger] banks[i]) == slab_upto(banks, n),
    decreases n,
{
    if n > 0 {
        some_slab_is_the_largest(banks, n - 1);
        let last = banks[n - 1];
        if n > 1 && slab_upto(banks, n - 1) >= bank_slab(&last) {
            let i = choose|i: int|
                0 <= i < n - 1 && bank_slab(&#[trigger] banks[i]) == slab_upto(banks, n - 1);
            assert(bank_slab(&banks[i]) == slab_upto(banks, n));
        } else {
            assert(bank_slab(&banks[n - 1]) == slab_upto(banks, n));
        }
    }
}

/// A chunk stages, of a layer, the slabs of as many experts as its tokens
/// can pick between them, at most all of them, and the shared ones; a fused
/// slab holds gate and up together.
pub proof fn chunks_stage_what_tokens_pick(b: &ExpertBank, s: &Shape, c: int)
    requires
        c >= 0,
        s.n_shexp_sink <= s.n_expert_used,
    ensures
        ({
            let up = if b.fused_up_off == 0 {
                b.up.expert_bytes as int
            } else {
                0
            };
            let one = b.gate.expert_bytes + up + b.down.expert_bytes;
            let picks = s.n_expert_used - s.n_shexp_sink;
            let shared = match b.sink {
                Some(x) => s.n_shexp_sink * (x@[0].expert_bytes + x@[1].expert_bytes
                    + x@[2].expert_bytes),
                None => 0,
            };
            &&& picks > 0 && c * picks <= s.n_expert ==> bank_stage(b, s, c) == (c * picks) * one
                + shared
            &&& picks > 0 && c * picks > s.n_expert ==> bank_stage(b, s, c) == s.n_expert * one
                + shared
            &&& picks == 0 && c <= s.n_expert ==> bank_stage(b, s, c) == c * one + shared
        }),
{
    assert(c * 1 == c) by (nonlinear_arith);
}

/// The worst layer decides what is staged.
pub proof fn the_worst_layer_is_staged(banks: Seq<ExpertBank>, s: &Shape, c: int, n: int)
    requires
        0 <= n <= banks.len(),
    ensures
        forall|i: int|
            0 <= i < n ==> bank_stage(&#[trigger] banks[i], s, c) <= stage_worst(banks, s, c, n),
        stage_worst(banks, s, c, n) == 0 || exists|i: int|
            0 <= i < n && bank_stage(&#[trigger] banks[i], s, c) == stage_worst(banks, s, c, n),
        stage_worst(banks, s, c, n) >= 0,
    decreases n,
{
    if n > 0 {
        the_worst_layer_is_staged(banks, s, c, n - 1);
        let w = stage_worst(banks, s, c, n - 1);
        if w >= bank_stage(&banks[n - 1], s, c) {
            if w != 0 {
                let i = choose|i: int|
                    0 <= i < n - 1 && bank_stage(&#[trigger] banks[i], s, c) == w;
                assert(bank_stage(&banks[i], s, c) == stage_worst(banks, s, c, n));
            }
        } else {
            assert(bank_stage(&banks[n - 1], s, c) == stage_worst(banks, s, c, n));
        }
    }
}

/// A chunk is the batch halved as often as it has to be: whole where it is
/// small or fits, and each halving was of a chunk that did not fit.
pub proof fn chunks_halve_only_where_they_must(banks: Seq<ExpertBank>, s: &Shape, c: int, share: int)
    requires
        c >= 1,
    ensures
        c <= 4 || stage_worst(banks, s, c, banks.len() as int) <= share ==> halved(
            banks,
            s,
            c,
            share,
        ) == c,
        c > 4 && stage_worst(banks, s, c, banks.len() as int) > share ==> halved(banks, s, c, share)
            == halved(banks, s, c / 2, share),
        1 <= halved(banks, s, c, share) <= c,
    decreases c,
{
    if c > 4 && stage_worst(banks, s, c, banks.len() as int) > share {
        chunks_halve_only_where_they_must(banks, s, c / 2, share);
    }
}

/// How a run's memory is divided: a forced batch is one chunk; staging holds
/// the chunk's worst layer and one token's experts at the largest slab; a
/// set cache is what is set; and what is left to the card itself comes off
/// first.
pub proof fn memory_is_divided_in_order(
    banks: Seq<ExpertBank>,
    s: &Shape,
    free: int,
    max_batch: u32,
    chunk: int,
    staging: int,
    setting: Option<usize>,
)
    requires
        max_batch >= 1,
    ensures
        chunk_of(banks, s, free, max_batch, true) == max_batch,
        chunk_of(banks, s, free, max_batch, false) == halved(
            banks,
            s,
            max_batch as int,
            pool_of(free) / 3,
        ),
        staging_of(banks, s, chunk) >= stage_worst(banks, s, chunk, banks.len() as int),
        staging_of(banks, s, chunk) >= s.n_expert_used * 3 * slab_upto(banks, banks.len() as int),
        staging_of(banks, s, chunk) == stage_worst(banks, s, chunk, banks.len() as int)
            || staging_of(banks, s, chunk) == s.n_expert_used * 3 * slab_upto(
            banks,
            banks.len() as int,
        ),
        setting matches Some(b) ==> b > 0 ==> cache_of(free, staging, setting) == b,
        setting == Some(0usize) ==> cache_of(free, staging, setting) == 1,
        setting is None ==> cache_of(free, staging, setting) >= CACHE_FLOOR,
        setting is None && pool_of(free) - staging < CACHE_FLOOR ==> cache_of(
            free,
            staging,
            setting,
        ) == 0x1000_0000,
        free >= 0x3000_0000 ==> pool_of(free) + 0x3000_0000 == free,
        free < 0x3000_0000 ==> pool_of(free) == 0,
{
    chunks_halve_only_where_they_must(banks, s, max_batch as int, pool_of(free) / 3);
}

/// A verification pass reads a row for each drafted token and one more: two
/// at least, sixteen at least in the hybrid, and enough for the longest
/// repeat of fifteen.
pub proof fn passes_have_a_row_per_draft(depth: int, family: Family, ngram: Option<u32>)
    requires
        depth >= 0,
    ensures
        ({
            let n = spec_rows_of(depth, family, ngram);
            let hybrid = family == Family::Qwen35;
            &&& n >= 2 && n >= depth + 1
            &&& hybrid ==> n >= 16
            &&& ngram matches Some(d) ==> (1 <= d <= 15 ==> n >= d + 1) && (d > 15 ==> n >= 16)
            &&& n == 2 || n == depth + 1 || (hybrid && n == 16) || (ngram matches Some(d) && ((d
                <= 15 && n == d + 1) || (d > 15 && n == 16)))
        }),
{
}

} // verus!
