//! Attention geometry that varies from layer to layer.

use vstd::prelude::*;

use crate::header;
use crate::header::{Header, MetaItem};
use crate::shape;
use crate::shape::{Arch, Shape, F32_ZERO};

verus! {

/// Geometry of one layer's attention. `theta` holds 32-bit float bits.
#[derive(Clone, Copy, Debug, PartialEq, Eq, Structural)]
pub struct Geom {
    /// Query heads of this layer; zero when uniform.
    pub n_head_q: u32,
    pub n_head_kv: u32,
    pub head_dim: u32,
    pub theta: u32,
    /// Sliding window; zero means full causal attention.
    pub window: u32,
    /// Rotation frequencies come from the file's factor table.
    pub factors: bool,
    /// Rotated width; zero rotates the whole head.
    pub rot: u32,
}

/// Bits of `1_000_000.0`.
pub const THETA_1M: u32 = 0x4974_2400;

/// Bits of `10_000.0`.
pub const THETA_10K: u32 = 0x461c_4000;

/// Bits of `10_000_000.0`.
pub const THETA_10M: u32 = 0x4b18_9680;

/// The integers of a list, leaving out what is none.
pub open spec fn nums_in(list: Seq<MetaItem>, n: int) -> Seq<u64>
    decreases n,
{
    if n <= 0 {
        Seq::empty()
    } else {
        match list[n - 1].num {
            Some(x) => nums_in(list, n - 1).push(x),
            None => nums_in(list, n - 1),
        }
    }
}

/// The integers under a key: those of a list, or a lone one.
pub open spec fn nums_of(h: &Header, key: Seq<char>) -> Seq<u64> {
    match h.list(key) {
        Some(l) => nums_in(l, l.len() as int),
        None => match h.num(key) {
            Some(x) => seq![x],
            None => Seq::empty(),
        },
    }
}

fn list_nums(l: &Vec<MetaItem>) -> (v: Vec<u64>)
    ensures
        v@ == nums_in(l@, l@.len() as int),
{
    let mut v: Vec<u64> = Vec::new();
    let mut i: usize = 0;
    while i < l.len()
        invariant
            i <= l@.len(),
            v@ == nums_in(l@, i as int),
        decreases l@.len() - i,
    {
        match l[i].num {
            Some(x) => {
                v.push(x);
            },
            None => {},
        }
        i = i + 1;
    }
    v
}

/// The integers under a key: those of a list, or a lone one.
pub fn nums_under(h: &Header, key: &str) -> (v: Vec<u64>)
    ensures
        v@ == nums_of(h, key@),
{
    match h.get_list(key) {
        Some(l) => list_nums(l),
        None => {
            let mut v: Vec<u64> = Vec::new();
            match h.get_num(key) {
                Some(x) => {
                    v.push(x);
                },
                None => {},
            }
            assert(v@ =~= nums_of(h, key@));
            v
        },
    }
}

/// An item of a sliding-window pattern; a lenient pattern also reads
/// integers.
pub open spec fn is_sliding(item: MetaItem, lenient: bool) -> bool {
    if lenient {
        match item.flag {
            Some(b) => b,
            None => item.num is Some && item.num->0 != 0,
        }
    } else {
        item.flag == Some(true)
    }
}

pub open spec fn sliding_at(h: &Header, il: int, lenient: bool) -> bool {
    match h.list("attention.sliding_window_pattern"@) {
        Some(l) => il < l.len() && is_sliding(l[il], lenient),
        None => false,
    }
}

fn sliding(h: &Header, il: usize, lenient: bool) -> (r: bool)
    ensures
        r == sliding_at(h, il as int, lenient),
{
    match h.get_list("attention.sliding_window_pattern") {
        Some(l) => {
            if il >= l.len() {
                return false;
            }
            match l[il].flag {
                Some(b) => b,
                None => match l[il].num {
                    Some(n) => lenient && n != 0,
                    None => false,
                },
            }
        },
        None => false,
    }
}

pub open spec fn at_or(v: Seq<u64>, i: int, d: u64) -> u64 {
    if 0 <= i < v.len() {
        v[i]
    } else {
        d
    }
}

fn get_or(v: &Vec<u64>, i: usize, d: u64) -> (r: u64)
    ensures
        r == at_or(v@, i as int, d),
{
    if i < v.len() {
        v[i]
    } else {
        d
    }
}

/// The smallest value, `d` of none.
pub open spec fn min_or(v: Seq<u64>, n: int, d: u64) -> u64
    decreases n,
{
    if n <= 0 {
        d
    } else if n == 1 {
        v[0]
    } else {
        let m = min_or(v, n - 1, d);
        if v[n - 1] < m {
            v[n - 1]
        } else {
            m
        }
    }
}

fn smallest_or(v: &Vec<u64>, d: u64) -> (m: u64)
    ensures
        m == min_or(v@, v@.len() as int, d),
{
    if v.len() == 0 {
        return d;
    }
    let mut m: u64 = v[0];
    let mut i: usize = 1;
    while i < v.len()
        invariant
            1 <= i <= v@.len(),
            m == min_or(v@, i as int, d),
        decreases v@.len() - i,
    {
        if v[i] < m {
            m = v[i];
        }
        i = i + 1;
    }
    m
}

/// Geometry of one layer of an architecture that varies it.
pub open spec fn geom_of(h: &Header, s: &Shape, arch: Arch, il: int) -> Geom {
    let kvh = nums_of(h, "attention.head_count_kv"@);
    match arch {
        Arch::Inkling => Geom {
            n_head_q: 0,
            n_head_kv: header::low32(at_or(kvh, il, s.n_head_kv as u64)),
            head_dim: s.head_dim,
            theta: F32_ZERO,
            window: if sliding_at(h, il, true) {
                h.num32_or("attention.sliding_window"@, 512)
            } else {
                0
            },
            factors: false,
            rot: 0,
        },
        Arch::Gemma4 => {
            let swa = sliding_at(h, il, false);
            let hd = h.num32_or("attention.key_length"@, 512);
            Geom {
                n_head_q: 0,
                n_head_kv: header::low32(at_or(kvh, il, 1)),
                head_dim: if swa { h.num32_or("attention.key_length_swa"@, hd) } else { hd },
                theta: if swa {
                    h.bits_or("rope.freq_base_swa"@, THETA_10K)
                } else {
                    h.bits_or("rope.freq_base"@, THETA_1M)
                },
                window: if swa { h.num32_or("attention.sliding_window"@, 0) } else { 0 },
                factors: !swa,
                rot: 0,
            }
        },
        Arch::Laguna => {
            let heads = nums_of(h, "attention.head_count"@);
            let nh = at_or(heads, il, s.n_head as u64);
            let full = nh == min_or(heads, heads.len() as int, s.n_head as u64);
            let theta = h.bits_or("rope.freq_base"@, THETA_10M);
            Geom {
                n_head_q: header::low32(nh),
                n_head_kv: header::low32(at_or(kvh, il, s.n_head_kv as u64)),
                head_dim: s.head_dim,
                theta: if full { theta } else { h.bits_or("rope.freq_base_swa"@, theta) },
                window: if full { 0 } else { h.num32_or("attention.sliding_window"@, 512) },
                factors: false,
                rot: if full {
                    h.num32_or("rope.dimension_count"@, s.head_dim)
                } else {
                    h.num32_or("rope.dimension_count_swa"@, s.head_dim)
                },
            }
        },
        _ => Geom {
            n_head_q: s.n_head,
            n_head_kv: s.n_head_kv,
            head_dim: s.head_dim,
            theta: s.rope_freq_base,
            window: if il % 2 == 0 { h.num32_or("attention.sliding_window"@, 128) } else { 0 },
            factors: false,
            rot: s.head_dim,
        },
    }
}

/// The architecture's layers differ in geometry.
pub open spec fn varies(arch: Arch) -> bool {
    arch == Arch::Inkling || arch == Arch::Gemma4 || arch == Arch::Laguna || arch == Arch::GptOss
}

/// Geometry of each layer; empty where all layers share the shape's.
pub open spec fn geoms_of(h: &Header, s: &Shape) -> Seq<Geom> {
    match shape::arch_of(h) {
        Some(a) => if varies(a) {
            Seq::new(s.n_exec_layer as nat, |il: int| geom_of(h, s, a, il))
        } else {
            Seq::empty()
        },
        None => Seq::empty(),
    }
}

fn one_geom(h: &Header, s: &Shape, arch: Arch, il: u32) -> (g: Geom)
    requires
        varies(arch),
    ensures
        g == geom_of(h, s, arch, il as int),
{
    let i: usize = il as usize;
    let kvh = nums_under(h, "attention.head_count_kv");
    match arch {
        Arch::Inkling => Geom {
            n_head_q: 0,
            n_head_kv: header::cut32(get_or(&kvh, i, s.n_head_kv as u64)),
            head_dim: s.head_dim,
            theta: F32_ZERO,
            window: if sliding(h, i, true) {
                h.get_num32_or("attention.sliding_window", 512)
            } else {
                0
            },
            factors: false,
            rot: 0,
        },
        Arch::Gemma4 => {
            let swa: bool = sliding(h, i, false);
            let hd: u32 = h.get_num32_or("attention.key_length", 512);
            Geom {
                n_head_q: 0,
                n_head_kv: header::cut32(get_or(&kvh, i, 1)),
                head_dim: if swa {
                    h.get_num32_or("attention.key_length_swa", hd)
                } else {
                    hd
                },
                theta: if swa {
                    h.get_bits_or("rope.freq_base_swa", THETA_10K)
                } else {
                    h.get_bits_or("rope.freq_base", THETA_1M)
                },
                window: if swa {
                    h.get_num32_or("attention.sliding_window", 0)
                } else {
                    0
                },
                factors: !swa,
                rot: 0,
            }
        },
        Arch::Laguna => {
            let heads = nums_under(h, "attention.head_count");
            let nh: u64 = get_or(&heads, i, s.n_head as u64);
            let full: bool = nh == smallest_or(&heads, s.n_head as u64);
            let theta: u32 = h.get_bits_or("rope.freq_base", THETA_10M);
            Geom {
                n_head_q: header::cut32(nh),
                n_head_kv: header::cut32(get_or(&kvh, i, s.n_head_kv as u64)),
                head_dim: s.head_dim,
                theta: if full {
                    theta
                } else {
                    h.get_bits_or("rope.freq_base_swa", theta)
                },
                window: if full {
                    0
                } else {
                    h.get_num32_or("attention.sliding_window", 512)
                },
                factors: false,
                rot: if full {
                    h.get_num32_or("rope.dimension_count", s.head_dim)
                } else {
                    h.get_num32_or("rope.dimension_count_swa", s.head_dim)
                },
            }
        },
        _ => Geom {
            n_head_q: s.n_head,
            n_head_kv: s.n_head_kv,
            head_dim: s.head_dim,
            theta: s.rope_freq_base,
            window: if il % 2 == 0 {
                h.get_num32_or("attention.sliding_window", 128)
            } else {
                0
            },
            factors: false,
            rot: s.head_dim,
        },
    }
}

/// Geometry of each layer; empty where all layers share the shape's.
pub fn layer_geoms(h: &Header, s: &Shape) -> (g: Vec<Geom>)
    ensures
        g@ == geoms_of(h, s),
{
    let mut out: Vec<Geom> = Vec::new();
    match shape::parse_arch(h) {
        Some(a) => {
            if a == Arch::Inkling || a == Arch::Gemma4 || a == Arch::Laguna || a == Arch::GptOss {
                let mut il: u32 = 0;
                while il < s.n_exec_layer
                    invariant
                        il <= s.n_exec_layer,
                        varies(a),
                        out@.len() == il,
                        forall|k: int| 0 <= k < il ==> #[trigger] out@[k] == geom_of(h, s, a, k),
                    decreases s.n_exec_layer - il,
                {
                    out.push(one_geom(h, s, a, il));
                    il = il + 1;
                }
            }
        },
        None => {},
    }
    assert(out@ =~= geoms_of(h, s));
    out
}

/// Head-of-model constants of a header, in 32-bit float bits where real.
#[derive(Clone, Copy, Debug, PartialEq, Eq, Structural)]
pub struct HeadConsts {
    /// Soft cap on the logits; zero for none.
    pub logit_softcap: u32,
    /// What logits are divided by; `None` leaves them.
    pub logit_denom: Option<u32>,
    /// Rows of the output head that are real tokens.
    pub n_vocab_out: u32,
}

/// Bits of `30.0`.
pub const SOFTCAP_30: u32 = 0x41f0_0000;

/// Constants of the output head, or the key that is missing.
pub fn head_consts(h: &Header, s: &Shape) -> (r: Result<HeadConsts, shape::Error>)
    ensures
        ({
            let a = shape::arch_of(h);
            let denom = h.bits("logit_scale_denom"@);
            match r {
                Ok(c) => {
                    &&& a == Some(Arch::Inkling) ==> denom is Some
                    &&& c.logit_softcap == if a == Some(Arch::Gemma4) {
                        h.bits_or("final_logit_softcapping"@, SOFTCAP_30)
                    } else {
                        F32_ZERO
                    }
                    &&& c.logit_denom == if a == Some(Arch::Inkling) { denom } else { None }
                    &&& c.n_vocab_out == if a == Some(Arch::Inkling) {
                        h.num32_or("unpadded_vocab_size"@, s.n_vocab)
                    } else {
                        s.n_vocab
                    }
                },
                Err(e) => a == Some(Arch::Inkling) && denom is None && e.fault()
                    == shape::Fault::Meta("logit_scale_denom"@),
            }
        }),
{
    let a = shape::parse_arch(h);
    let ink: bool = match a {
        Some(Arch::Inkling) => true,
        _ => false,
    };
    let gemma: bool = match a {
        Some(Arch::Gemma4) => true,
        _ => false,
    };
    let logit_softcap: u32 = if gemma {
        h.get_bits_or("final_logit_softcapping", SOFTCAP_30)
    } else {
        F32_ZERO
    };
    let logit_denom: Option<u32> = if ink {
        match h.get_bits("logit_scale_denom") {
            Some(d) => Some(d),
            None => {
                return Err(shape::meta_err("logit_scale_denom"));
            },
        }
    } else {
        None
    };
    let n_vocab_out: u32 = if ink {
        h.get_num32_or("unpadded_vocab_size", s.n_vocab)
    } else {
        s.n_vocab
    };
    Ok(HeadConsts { logit_softcap, logit_denom, n_vocab_out })
}

/// Why the per-layer compression ratios are refused.
pub enum RatioError {
    /// The key is missing or is no list.
    Missing,
    /// There are fewer ratios than layers.
    Short,
}

/// The compression ratios of a header, each cut to 32 bits.
pub open spec fn ratios_of(list: Seq<MetaItem>) -> Seq<u32> {
    let n = nums_in(list, list.len() as int);
    Seq::new(n.len(), |i: int| header::low32(n[i]))
}

/// Per-layer compression ratios of the family that compresses; empty for the
/// others.
pub fn compress_ratios(h: &Header, s: &Shape) -> (r: Result<Vec<u32>, RatioError>)
    ensures
        ({
            let l = h.list("attention.compress_ratios"@);
            match r {
                Ok(v) => if s.family != shape::Family::Dsv4 {
                    v@.len() == 0
                } else {
                    l is Some && v@ == ratios_of(l->0) && v@.len() >= s.n_exec_layer
                },
                Err(RatioError::Missing) => s.family == shape::Family::Dsv4 && l is None,
                Err(RatioError::Short) => s.family == shape::Family::Dsv4 && l is Some
                    && ratios_of(l->0).len() < s.n_exec_layer,
            }
        }),
{
    let mut out: Vec<u32> = Vec::new();
    if s.family != shape::Family::Dsv4 {
        return Ok(out);
    }
    let nums = match h.get_list("attention.compress_ratios") {
        Some(l) => list_nums(l),
        None => {
            return Err(RatioError::Missing);
        },
    };
    let ghost l = h.list("attention.compress_ratios"@)->0;
    let mut i: usize = 0;
    while i < nums.len()
        invariant
            i <= nums@.len(),
            nums@ == nums_in(l, l.len() as int),
            out@ =~= ratios_of(l).take(i as int),
        decreases nums@.len() - i,
    {
        out.push(header::cut32(nums[i]));
        i = i + 1;
    }
    assert(out@ =~= ratios_of(l));
    if out.len() < s.n_exec_layer as usize {
        return Err(RatioError::Short);
    }
    Ok(out)
}

/// Leading dense layers plus every fourth from the seventh on select key
/// rows themselves; the layers between reuse the last selection.
pub open spec fn full_indexer(il: int, n_leading_dense: int) -> bool {
    il < n_leading_dense || (il >= 6 && (il - 6) % 4 == 0)
}

/// The layer runs the key-row selection itself.
pub fn uses_full_indexer(il: usize, n_leading_dense: u32) -> (r: bool)
    ensures
        r == full_indexer(il as int, n_leading_dense as int),
{
    il < n_leading_dense as usize || (il >= 6 && (il - 6) % 4 == 0)
}

} // verus!
