//! Key/value cache: storage format, sizes, and the cards it lives on.

use vstd::prelude::*;

use crate::geom;
use crate::geom::Geom;
use crate::shape::{Family, Shape};
use crate::text;

verus! {

/// How one row of a per-head cache is stored.
#[derive(Clone, Copy, Debug, PartialEq, Eq, Structural)]
pub enum KvFormat {
    /// Exact.
    F32,
    /// 8-bit floats and one scale per row.
    Fp8,
    /// Half floats.
    Fp16,
    /// 8-bit integers and one scale per row.
    Int8,
    /// Blocks of 32: a half-float scale and 32 bytes.
    Q8,
    /// Blocks of 32: a half-float scale and 16 bytes.
    Q4,
}

/// Bytes of a row of `hd` elements.
pub open spec fn kv_row(f: KvFormat, hd: int) -> int {
    match f {
        KvFormat::F32 => hd * 4,
        KvFormat::Fp8 | KvFormat::Int8 => hd + 4,
        KvFormat::Fp16 => hd * 2,
        KvFormat::Q8 => hd / 32 * 34,
        KvFormat::Q4 => hd / 32 * 18,
    }
}

impl KvFormat {
    /// Bytes of a row of `hd` elements.
    pub fn row(self, hd: u32) -> (n: u64)
        ensures
            n == kv_row(self, hd as int),
            n <= 0x4_0000_0000,
    {
        let h: u64 = hd as u64;
        match self {
            KvFormat::F32 => h * 4,
            KvFormat::Fp8 | KvFormat::Int8 => h + 4,
            KvFormat::Fp16 => h * 2,
            KvFormat::Q8 => h / 32 * 34,
            KvFormat::Q4 => h / 32 * 18,
        }
    }

    /// The number kernels know the format by.
    pub fn code(self) -> (n: u32)
        ensures
            n == match self {
                KvFormat::F32 => 0u32,
                KvFormat::Fp8 => 1,
                KvFormat::Fp16 => 2,
                KvFormat::Int8 => 3,
                KvFormat::Q8 => 4,
                KvFormat::Q4 => 5,
            },
    {
        match self {
            KvFormat::F32 => 0,
            KvFormat::Fp8 => 1,
            KvFormat::Fp16 => 2,
            KvFormat::Int8 => 3,
            KvFormat::Q8 => 4,
            KvFormat::Q4 => 5,
        }
    }
}

/// How the latent cache is stored.
#[derive(Clone, Copy, Debug, PartialEq, Eq, Structural)]
pub enum LatFormat {
    F32,
    Fp8,
    Fp16,
}

/// Bytes of a latent row of `d` elements.
pub open spec fn lat_row(f: LatFormat, d: int) -> int {
    match f {
        LatFormat::F32 => d * 4,
        LatFormat::Fp8 => d + 4,
        LatFormat::Fp16 => d * 2,
    }
}

impl LatFormat {
    /// Bytes of a latent row of `d` elements.
    pub fn row(self, d: u32) -> (n: u64)
        ensures
            n == lat_row(self, d as int),
            n <= 0x4_0000_0000,
    {
        match self {
            LatFormat::F32 => d as u64 * 4,
            LatFormat::Fp8 => d as u64 + 4,
            LatFormat::Fp16 => d as u64 * 2,
        }
    }
}

/// What to tell the user about a format request.
#[derive(Clone, Copy, Debug, PartialEq, Eq, Structural)]
pub enum KvNote {
    Quiet,
    /// The exact cache would crowd out the experts.
    Auto,
    /// Heads are wider than the rotation.
    RotationOff,
    /// The architecture keeps its exact cache.
    Ignored,
    /// The latent cache has no such format.
    NoLatent,
}

/// The storage formats of a run.
#[derive(Clone, Copy, Debug, PartialEq, Eq, Structural)]
pub struct KvChoice {
    pub format: KvFormat,
    /// Keys and queries are rotated before they are stored in blocks.
    pub rot: bool,
    pub lat: LatFormat,
    pub note: KvNote,
}

/// The per-head cache of this model can be stored in other formats.
pub open spec fn heads_pack(s: &Shape) -> bool {
    match s.family {
        Family::Gqa | Family::Dsv4 => true,
        Family::Qwen35 => s.n_expert != 1,
        Family::Mla | Family::K3 => false,
    }
}

/// The format a request names, with rotation where it asks for one.
pub open spec fn named_format(v: Seq<char>) -> (KvFormat, bool) {
    if v == "fp8"@ {
        (KvFormat::Fp8, false)
    } else if v == "fp16"@ || v == "f16"@ {
        (KvFormat::Fp16, false)
    } else if v == "int8"@ || v == "i8"@ {
        (KvFormat::Int8, false)
    } else if v == "q8_0"@ || v == "q8"@ {
        (KvFormat::Q8, false)
    } else if v == "q4_0"@ || v == "q4"@ {
        (KvFormat::Q4, false)
    } else if v == "turbo8"@ || v == "rotq8"@ || v == "turboq8"@ {
        (KvFormat::Q8, true)
    } else if v == "turbo4"@ || v == "rotq4"@ || v == "turboq4"@ {
        (KvFormat::Q4, true)
    } else {
        (KvFormat::F32, false)
    }
}

fn format_named(v: &str) -> (r: (KvFormat, bool))
    ensures
        r == named_format(v@),
{
    if text::same(v, "fp8") {
        (KvFormat::Fp8, false)
    } else if text::same(v, "fp16") || text::same(v, "f16") {
        (KvFormat::Fp16, false)
    } else if text::same(v, "int8") || text::same(v, "i8") {
        (KvFormat::Int8, false)
    } else if text::same(v, "q8_0") || text::same(v, "q8") {
        (KvFormat::Q8, false)
    } else if text::same(v, "q4_0") || text::same(v, "q4") {
        (KvFormat::Q4, false)
    } else if text::same(v, "turbo8") || text::same(v, "rotq8") || text::same(v, "turboq8") {
        (KvFormat::Q8, true)
    } else if text::same(v, "turbo4") || text::same(v, "rotq4") || text::same(v, "turboq4") {
        (KvFormat::Q4, true)
    } else {
        (KvFormat::F32, false)
    }
}

/// A request that asks for something other than the exact cache.
pub open spec fn asks(v: Seq<char>) -> bool {
    v.len() > 0 && v != "f32"@
}

/// Rotated keys and queries would not share a stride.
pub open spec fn rotation_breaks(s: &Shape) -> bool {
    s.qk_nope + s.qk_rope > s.head_dim && (s.family == Family::Gqa || s.family == Family::Qwen35)
}

/// The formats a request gives. Without one the cache stays exact, or goes to
/// 8-bit floats where `auto8` says that it would crowd out the experts.
pub open spec fn kv_choice(s: &Shape, req: Option<Seq<char>>, auto8: bool) -> KvChoice {
    let exact = KvChoice {
        format: KvFormat::F32,
        rot: false,
        lat: LatFormat::F32,
        note: KvNote::Quiet,
    };
    if heads_pack(s) {
        match req {
            Some(v) => {
                let (format, rot) = named_format(v);
                if rot && rotation_breaks(s) {
                    KvChoice { format, note: KvNote::RotationOff, ..exact }
                } else {
                    KvChoice { format, rot, ..exact }
                }
            },
            None => if auto8 {
                KvChoice { format: KvFormat::Fp8, note: KvNote::Auto, ..exact }
            } else {
                exact
            },
        }
    } else if s.family == Family::Mla {
        match req {
            Some(v) => if v == "fp8"@ {
                KvChoice { lat: LatFormat::Fp8, ..exact }
            } else if v == "fp16"@ || v == "f16"@ {
                KvChoice { lat: LatFormat::Fp16, ..exact }
            } else if asks(v) {
                KvChoice { note: KvNote::NoLatent, ..exact }
            } else {
                exact
            },
            None => if auto8 {
                KvChoice { lat: LatFormat::Fp8, note: KvNote::Auto, ..exact }
            } else {
                exact
            },
        }
    } else {
        match req {
            Some(v) => if asks(v) { KvChoice { note: KvNote::Ignored, ..exact } } else { exact },
            None => exact,
        }
    }
}

fn asked(v: &str) -> (r: bool)
    ensures
        r == asks(v@),
{
    let cs = text::chars_of(v);
    cs.len() > 0 && !text::same(v, "f32")
}

/// The formats a request gives.
pub fn choose_kv(s: &Shape, req: Option<&str>, auto8: bool) -> (c: KvChoice)
    ensures
        c == kv_choice(
            s,
            match req {
                Some(v) => Some(v@),
                None => None,
            },
            auto8,
        ),
{
    let exact = KvChoice {
        format: KvFormat::F32,
        rot: false,
        lat: LatFormat::F32,
        note: KvNote::Quiet,
    };
    let pack: bool = match s.family {
        Family::Gqa | Family::Dsv4 => true,
        Family::Qwen35 => s.n_expert != 1,
        Family::Mla | Family::K3 => false,
    };
    if pack {
        match req {
            Some(v) => {
                let (format, rot): (KvFormat, bool) = format_named(v);
                let breaks: bool = s.qk_nope as u64 + s.qk_rope as u64 > s.head_dim as u64 && (
                s.family == Family::Gqa || s.family == Family::Qwen35);
                if rot && breaks {
                    KvChoice { format, note: KvNote::RotationOff, ..exact }
                } else {
                    KvChoice { format, rot, ..exact }
                }
            },
            None => if auto8 {
                KvChoice { format: KvFormat::Fp8, note: KvNote::Auto, ..exact }
            } else {
                exact
            },
        }
    } else if s.family == Family::Mla {
        match req {
            Some(v) => if text::same(v, "fp8") {
                KvChoice { lat: LatFormat::Fp8, ..exact }
            } else if text::same(v, "fp16") || text::same(v, "f16") {
                KvChoice { lat: LatFormat::Fp16, ..exact }
            } else if asked(v) {
                KvChoice { note: KvNote::NoLatent, ..exact }
            } else {
                exact
            },
            None => if auto8 {
                KvChoice { lat: LatFormat::Fp8, note: KvNote::Auto, ..exact }
            } else {
                exact
            },
        }
    } else {
        match req {
            Some(v) => if asked(v) {
                KvChoice { note: KvNote::Ignored, ..exact }
            } else {
                exact
            },
            None => exact,
        }
    }
}

/// The format's name in the banner.
pub open spec fn label(c: KvChoice) -> Seq<char> {
    match c.format {
        KvFormat::F32 => "f32"@,
        KvFormat::Fp8 => "fp8"@,
        KvFormat::Fp16 => "fp16"@,
        KvFormat::Int8 => "int8"@,
        KvFormat::Q8 => if c.rot { "turbo8"@ } else { "q8_0"@ },
        KvFormat::Q4 => if c.rot { "turbo4"@ } else { "q4_0"@ },
    }
}

/// The format's name in the banner.
pub fn kv_name(c: &KvChoice) -> (n: &'static str)
    ensures
        n@ == label(*c),
        n@ == match c.format {
            KvFormat::F32 => "f32"@,
            KvFormat::Fp8 => "fp8"@,
            KvFormat::Fp16 => "fp16"@,
            KvFormat::Int8 => "int8"@,
            KvFormat::Q8 => if c.rot { "turbo8"@ } else { "q8_0"@ },
            KvFormat::Q4 => if c.rot { "turbo4"@ } else { "q4_0"@ },
        },
{
    match c.format {
        KvFormat::F32 => "f32",
        KvFormat::Fp8 => "fp8",
        KvFormat::Fp16 => "fp16",
        KvFormat::Int8 => "int8",
        KvFormat::Q8 => if c.rot {
            "turbo8"
        } else {
            "q8_0"
        },
        KvFormat::Q4 => if c.rot {
            "turbo4"
        } else {
            "q4_0"
        },
    }
}

/// Exact caches below this size never switch by themselves.
pub const AUTO_FLOOR: usize = 0x8000_0000;

/// The exact cache would crowd out the experts: it is large, and more than a
/// third of what its card has free.
pub fn auto_fp8(total: usize, free: Option<usize>) -> (r: bool)
    ensures
        r == (total > AUTO_FLOOR && total > (match free {
            Some(f) => f,
            None => usize::MAX,
        }) / 3),
{
    let f: usize = match free {
        Some(f) => f,
        None => usize::MAX,
    };
    total > AUTO_FLOOR && total > f / 3
}

/// What the sizes of a model's caches depend on.
pub struct KvDims {
    pub shape: Shape,
    pub geom: Vec<Geom>,
    /// Compression ratio of each layer, where the family has one.
    pub ratios: Vec<u32>,
    /// Layers with latent attention, in the hybrid family.
    pub latent: Vec<bool>,
    pub ctx: u32,
    /// A draft layer follows the layers that run.
    pub has_mtp: bool,
}

/// Compressed rows of a context.
pub open spec fn comp_rows(ctx: int, ratio: int) -> int {
    if ratio == 0 {
        0
    } else {
        ctx / ratio + 2
    }
}

impl KvDims {
    /// Caches: one per layer, one for the draft layer.
    pub open spec fn slots(&self) -> int {
        self.shape.n_exec_layer + if self.has_mtp { 1int } else { 0 }
    }

    pub open spec fn ratio(&self, i: int) -> u32 {
        if 0 <= i < self.ratios@.len() {
            self.ratios@[i]
        } else {
            0
        }
    }

    /// Key/value heads of a layer, and their width.
    pub open spec fn heads(&self, i: int) -> (u32, u32) {
        if 0 <= i < self.geom@.len() {
            (self.geom@[i].n_head_kv, self.geom@[i].head_dim)
        } else {
            (self.shape.n_head_kv, self.shape.head_dim)
        }
    }

    /// The slot belongs to a full-attention layer of the hybrid that counts
    /// them by an interval.
    pub open spec fn full_slot(&self, i: int) -> bool {
        i == self.shape.n_exec_layer || (self.shape.full_attn_interval != 0 && (i + 1)
            % self.shape.full_attn_interval as int == 0)
    }

    /// Bytes of one slot, exact.
    pub open spec fn exact_slot(&self, i: int) -> int {
        let s = self.shape;
        match s.family {
            Family::Mla => (s.n_kv_lora + s.qk_rope) * self.ctx * 4,
            Family::Qwen35 => if self.full_slot(i) {
                2 * (s.n_head_kv * self.ctx * (s.head_dim * 4))
            } else {
                8
            },
            Family::Dsv4 => (s.n_swa + comp_rows(self.ctx as int, self.ratio(i) as int)) * (
            s.head_dim * 4),
            _ => 2 * (self.heads(i).0 * self.ctx * (self.heads(i).1 * 4)),
        }
    }

    /// Bytes of the first `n` slots, exact.
    pub open spec fn exact_total(&self, n: int) -> int
        decreases n,
    {
        if n <= 0 {
            0
        } else {
            self.exact_total(n - 1) + self.exact_slot(n - 1)
        }
    }

    /// Key bytes and value bytes of one slot.
    pub open spec fn slot_bytes(&self, c: &KvChoice, i: int) -> (int, int) {
        let s = self.shape;
        let row = kv_row(c.format, s.head_dim as int);
        let head = s.n_head_kv * self.ctx * row;
        let lat = (
            self.ctx * lat_row(c.lat, s.n_kv_lora as int),
            self.ctx * lat_row(c.lat, s.qk_rope as int),
        );
        match s.family {
            Family::Mla => if 0 <= i < self.geom@.len() {
                let (h, d) = self.heads(i);
                let b = h * self.ctx * kv_row(c.format, d as int);
                (b, b)
            } else {
                lat
            },
            Family::Gqa => {
                let (h, d) = self.heads(i);
                let b = h * self.ctx * kv_row(c.format, d as int);
                (b, b)
            },
            Family::Qwen35 => if self.full_slot(i) { (head, head) } else { (4, 4) },
            Family::K3 => if 0 <= i < self.latent@.len() && self.latent@[i] { lat } else { (4, 4) },
            Family::Dsv4 => (
                s.n_swa * row,
                if self.ratio(i) == 0 {
                    4
                } else {
                    comp_rows(self.ctx as int, self.ratio(i) as int) * row
                },
            ),
        }
    }
}

fn product(a: u32, b: u32, c: u64) -> (r: u128)
    requires
        c <= 0x4_0000_0000,
    ensures
        r == a * b * c,
        r <= 0x4_0000_0000_0000_0000_0000_0000,
{
    proof {
        assert(a * b <= 0xffff_ffff * 0xffff_ffff) by (nonlinear_arith)
            requires
                a <= 0xffff_ffff,
                b <= 0xffff_ffff,
        ;
        assert(a * b * c <= 0x4_0000_0000_0000_0000_0000_0000) by (nonlinear_arith)
            requires
                0 <= a * b <= 0xffff_ffff * 0xffff_ffff,
                0 <= c <= 0x4_0000_0000,
        ;
        assert(0 <= a * b) by (nonlinear_arith);
    }
    a as u128 * b as u128 * c as u128
}

fn scaled(a: u64, c: u64) -> (r: u128)
    requires
        a <= 0x2_0000_0000,
        c <= 0x4_0000_0000,
    ensures
        r == a * c,
        r <= 0x8_0000_0000_0000_0000,
{
    proof {
        assert(0 <= a * c <= 0x8_0000_0000_0000_0000) by (nonlinear_arith)
            requires
                0 <= a <= 0x2_0000_0000,
                0 <= c <= 0x4_0000_0000,
        ;
    }
    a as u128 * c as u128
}

fn comp_of(ctx: u32, ratio: u32) -> (n: u64)
    ensures
        n == comp_rows(ctx as int, ratio as int),
        n <= 0x1_0000_0001,
{
    if ratio == 0 {
        0
    } else {
        proof {
            assert(ctx / ratio <= ctx) by (nonlinear_arith)
                requires
                    ratio > 0,
            ;
        }
        (ctx / ratio) as u64 + 2
    }
}

impl KvDims {
    fn ratio_at(&self, i: u64) -> (r: u32)
        ensures
            r == self.ratio(i as int),
    {
        if i < self.ratios.len() as u64 {
            self.ratios[i as usize]
        } else {
            0
        }
    }

    fn heads_at(&self, i: u64) -> (r: (u32, u32))
        ensures
            r == self.heads(i as int),
    {
        if i < self.geom.len() as u64 {
            (self.geom[i as usize].n_head_kv, self.geom[i as usize].head_dim)
        } else {
            (self.shape.n_head_kv, self.shape.head_dim)
        }
    }

    fn is_full_slot(&self, i: u64) -> (r: bool)
        requires
            i < u64::MAX,
        ensures
            r == self.full_slot(i as int),
    {
        i == self.shape.n_exec_layer as u64 || (self.shape.full_attn_interval != 0 && (i + 1)
            % self.shape.full_attn_interval as u64 == 0)
    }

    fn exact_at(&self, i: u64) -> (n: u128)
        requires
            i <= u32::MAX,
        ensures
            n == self.exact_slot(i as int),
            n <= 0x8_0000_0000_0000_0000_0000_0000,
    {
        let s = &self.shape;
        match s.family {
            Family::Mla => {
                let w: u64 = s.n_kv_lora as u64 + s.qk_rope as u64;
                let r: u128 = scaled(w, self.ctx as u64);
                r * 4
            },
            Family::Qwen35 => if self.is_full_slot(i) {
                2 * product(s.n_head_kv, self.ctx, s.head_dim as u64 * 4)
            } else {
                8
            },
            Family::Dsv4 => scaled(
                s.n_swa as u64 + comp_of(self.ctx, self.ratio_at(i)),
                s.head_dim as u64 * 4,
            ),
            _ => {
                let (h, d): (u32, u32) = self.heads_at(i);
                2 * product(h, self.ctx, d as u64 * 4)
            },
        }
    }

    /// Bytes the caches would take stored exactly; `None` when that has no
    /// size in memory.
    pub fn exact_bytes(&self) -> (r: Option<usize>)
        ensures
            match r {
                Some(n) => n == self.exact_total(self.slots()),
                None => self.exact_total(self.slots()) > usize::MAX,
            },
    {
        let n: u64 = self.shape.n_exec_layer as u64 + if self.has_mtp {
            1
        } else {
            0
        };
        let mut sum: u128 = 0;
        let mut i: u64 = 0;
        while i < n
            invariant
                i <= n,
                n == self.slots(),
                n <= 0x1_0000_0000,
                sum == self.exact_total(i as int),
                sum <= usize::MAX,
            decreases n - i,
        {
            sum = sum + self.exact_at(i);
            i = i + 1;
            if sum > usize::MAX as u128 {
                proof {
                    self.lemma_total_grows(i as int, n as int);
                }
                return None;
            }
        }
        Some(sum as usize)
    }

    proof fn lemma_total_grows(&self, a: int, b: int)
        requires
            0 <= a <= b,
        ensures
            self.exact_total(a) <= self.exact_total(b),
        decreases b - a,
    {
        if a < b {
            self.lemma_total_grows(a, b - 1);
            self.lemma_slot_size(b - 1);
        }
    }

    proof fn lemma_slot_size(&self, i: int)
        ensures
            self.exact_slot(i) >= 0,
    {
        let s = self.shape;
        let (h, d) = self.heads(i);
        let c = self.ctx as int;
        assert(0 <= (s.n_kv_lora + s.qk_rope) * c) by (nonlinear_arith)
            requires
                0 <= c,
        ;
        assert(0 <= s.n_head_kv * c * (s.head_dim * 4)) by (nonlinear_arith)
            requires
                0 <= c,
        ;
        assert(0 <= h * c * (d * 4)) by (nonlinear_arith)
            requires
                0 <= c,
        ;
        let k = comp_rows(c, self.ratio(i) as int);
        if self.ratio(i) != 0 {
            let q = self.ratio(i) as int;
            assert(c / q >= 0) by (nonlinear_arith)
                requires
                    c >= 0,
                    q > 0,
            ;
        }
        assert(0 <= (s.n_swa + k) * (s.head_dim * 4)) by (nonlinear_arith)
            requires
                0 <= k,
        ;
    }

    /// Key bytes and value bytes of one slot; `None` when one has no size in
    /// memory.
    pub fn slot(&self, c: &KvChoice, i: u64) -> (r: Option<(usize, usize)>)
        requires
            i < self.slots(),
        ensures
            match r {
                Some(p) => p.0 == self.slot_bytes(c, i as int).0 && p.1 == self.slot_bytes(
                    c,
                    i as int,
                ).1,
                None => self.slot_bytes(c, i as int).0 > usize::MAX || self.slot_bytes(
                    c,
                    i as int,
                ).1 > usize::MAX,
            },
    {
        let s = &self.shape;
        let row: u64 = c.format.row(s.head_dim);
        let in_geom: bool = i < self.geom.len() as u64;
        let lat_k: u128 = scaled(self.ctx as u64, c.lat.row(s.n_kv_lora));
        let lat_v: u128 = scaled(self.ctx as u64, c.lat.row(s.qk_rope));
        let (k, v): (u128, u128) = match s.family {
            Family::Mla if !in_geom => (lat_k, lat_v),
            Family::Mla | Family::Gqa => {
                let (h, d): (u32, u32) = self.heads_at(i);
                let b: u128 = product(h, self.ctx, c.format.row(d));
                (b, b)
            },
            Family::Qwen35 => if self.is_full_slot(i) {
                let b: u128 = product(s.n_head_kv, self.ctx, row);
                (b, b)
            } else {
                (4, 4)
            },
            Family::K3 => if i < self.latent.len() as u64 && self.latent[i as usize] {
                (lat_k, lat_v)
            } else {
                (4, 4)
            },
            Family::Dsv4 => {
                let ratio: u32 = self.ratio_at(i);
                let comp: u128 = if ratio == 0 {
                    4
                } else {
                    scaled(comp_of(self.ctx, ratio), row)
                };
                (scaled(s.n_swa as u64, row), comp)
            },
        };
        if k > usize::MAX as u128 || v > usize::MAX as u128 {
            None
        } else {
            Some((k as usize, v as usize))
        }
    }
}

/// The values of `f` on `0..n`, each listed once, in order of first sight.
pub open spec fn first_seen(f: Seq<i32>, n: int) -> Seq<i32>
    decreases n,
{
    if n <= 0 {
        Seq::empty()
    } else {
        let d = first_seen(f, n - 1);
        if d.contains(f[n - 1]) {
            d
        } else {
            d.push(f[n - 1])
        }
    }
}

/// Each card of a list once, in order of first sight.
pub fn distinct_cards(f: &Vec<i32>) -> (d: Vec<i32>)
    ensures
        d@ == first_seen(f@, f@.len() as int),
{
    let mut d: Vec<i32> = Vec::new();
    let mut i: usize = 0;
    while i < f.len()
        invariant
            i <= f@.len(),
            d@ == first_seen(f@, i as int),
        decreases f@.len() - i,
    {
        let mut seen: bool = false;
        let mut j: usize = 0;
        while j < d.len()
            invariant
                j <= d@.len(),
                i < f@.len(),
                seen == exists|k: int| 0 <= k < j && d@[k] == f@[i as int],
            decreases d@.len() - j,
        {
            if d[j] == f[i] {
                seen = true;
            }
            j = j + 1;
        }
        if !seen {
            d.push(f[i]);
        }
        i = i + 1;
    }
    d
}

/// What decides where a cache slot lives.
pub struct CardMap {
    /// Card of each layer.
    pub layer_dev: Vec<i32>,
    /// Card of each layer's attention, and of the draft layer's.
    pub attn_layer_dev: Vec<i32>,
    pub attn_dev: Option<i32>,
    pub primary: i32,
}

impl CardMap {
    /// Whole layers live on more than the primary.
    pub open spec fn dense_split(&self) -> bool {
        exists|i: int| 0 <= i < self.layer_dev@.len() && #[trigger] self.layer_dev@[i] != self.primary
    }

    /// Attention is spread over cards.
    pub open spec fn attn_split(&self) -> bool {
        exists|i: int|
            1 <= i < self.attn_layer_dev@.len() && #[trigger] self.attn_layer_dev@[i]
                != self.attn_layer_dev@[i - 1]
    }

    /// Card of one cache slot.
    pub open spec fn slot_card(&self, i: int) -> i32 {
        if self.dense_split() {
            if 0 <= i < self.layer_dev@.len() {
                self.layer_dev@[i]
            } else {
                self.primary
            }
        } else if self.attn_split() {
            if 0 <= i < self.attn_layer_dev@.len() {
                self.attn_layer_dev@[i]
            } else {
                self.primary
            }
        } else {
            match self.attn_dev {
                Some(d) => d,
                None => self.primary,
            }
        }
    }

    pub open spec fn slot_cards(&self, n: nat) -> Seq<i32> {
        Seq::new(n, |i: int| self.slot_card(i))
    }

    /// Whole layers live on more than the primary.
    pub fn is_dense_split(&self) -> (r: bool)
        ensures
            r == self.dense_split(),
    {
        let mut i: usize = 0;
        while i < self.layer_dev.len()
            invariant
                i <= self.layer_dev@.len(),
                forall|k: int| 0 <= k < i ==> #[trigger] self.layer_dev@[k] == self.primary,
            decreases self.layer_dev@.len() - i,
        {
            if self.layer_dev[i] != self.primary {
                return true;
            }
            i = i + 1;
        }
        false
    }

    /// Attention is spread over cards.
    pub fn is_attn_split(&self) -> (r: bool)
        ensures
            r == self.attn_split(),
    {
        let mut i: usize = 1;
        while i < self.attn_layer_dev.len()
            invariant
                1 <= i,
                i <= self.attn_layer_dev@.len() || self.attn_layer_dev@.len() == 0,
                forall|k: int|
                    1 <= k < i && k < self.attn_layer_dev@.len()
                        ==> #[trigger] self.attn_layer_dev@[k] == self.attn_layer_dev@[k - 1],
            decreases self.attn_layer_dev@.len() - i,
        {
            if self.attn_layer_dev[i] != self.attn_layer_dev[i - 1] {
                return true;
            }
            i = i + 1;
        }
        false
    }

    /// Card of each of `n` cache slots.
    pub fn cards(&self, n: usize) -> (v: Vec<i32>)
        ensures
            v@ == self.slot_cards(n as nat),
    {
        let dense: bool = self.is_dense_split();
        let split: bool = self.is_attn_split();
        let mut v: Vec<i32> = Vec::new();
        let mut i: usize = 0;
        while i < n
            invariant
                i <= n,
                dense == self.dense_split(),
                split == self.attn_split(),
                v@ =~= self.slot_cards(n as nat).take(i as int),
            decreases n - i,
        {
            let d: i32 = if dense {
                if i < self.layer_dev.len() {
                    self.layer_dev[i]
                } else {
                    self.primary
                }
            } else if split {
                if i < self.attn_layer_dev.len() {
                    self.attn_layer_dev[i]
                } else {
                    self.primary
                }
            } else {
                match self.attn_dev {
                    Some(d) => d,
                    None => self.primary,
                }
            };
            v.push(d);
            i = i + 1;
        }
        assert(v@ =~= self.slot_cards(n as nat));
        v
    }

    /// The cards that host cache rows, each once.
    pub fn kv_devs(&self, n: usize) -> (d: Vec<i32>)
        ensures
            d@ == first_seen(self.slot_cards(n as nat), n as int),
    {
        let v = self.cards(n);
        distinct_cards(&v)
    }
}

/// Bytes of one position of a layer's selection keys.
pub open spec fn idx_row_of(lat: LatFormat, n_idx_dim: int) -> int {
    if lat == LatFormat::Fp8 {
        n_idx_dim + 4
    } else {
        n_idx_dim * 2
    }
}

/// Bytes of a layer's selection keys; `None` for a layer that keeps none.
pub fn idx_bytes(s: &Shape, lat: LatFormat, il: usize, ctx: u32) -> (r: Option<u128>)
    ensures
        r == if s.n_idx_topk > 0 && s.family == Family::Mla && geom::full_indexer(
            il as int,
            s.n_leading_dense as int,
        ) {
            Some((ctx * idx_row_of(lat, s.n_idx_dim as int)) as u128)
        } else {
            None
        },
{
    if s.n_idx_topk > 0 && s.family == Family::Mla && geom::uses_full_indexer(
        il,
        s.n_leading_dense,
    ) {
        let row: u64 = if lat == LatFormat::Fp8 {
            s.n_idx_dim as u64 + 4
        } else {
            s.n_idx_dim as u64 * 2
        };
        Some(scaled(ctx as u64, row))
    } else {
        None
    }
}

proof fn lemma_format_names()
    ensures
        named_format("f32"@) == (KvFormat::F32, false),
        named_format("fp8"@) == (KvFormat::Fp8, false),
        named_format("fp16"@) == (KvFormat::Fp16, false),
        named_format("f16"@) == (KvFormat::Fp16, false),
        named_format("int8"@) == (KvFormat::Int8, false),
        named_format("i8"@) == (KvFormat::Int8, false),
        named_format("q8_0"@) == (KvFormat::Q8, false),
        named_format("q8"@) == (KvFormat::Q8, false),
        named_format("q4_0"@) == (KvFormat::Q4, false),
        named_format("q4"@) == (KvFormat::Q4, false),
        named_format("turbo8"@) == (KvFormat::Q8, true),
        named_format("rotq8"@) == (KvFormat::Q8, true),
        named_format("turboq8"@) == (KvFormat::Q8, true),
        named_format("turbo4"@) == (KvFormat::Q4, true),
        named_format("rotq4"@) == (KvFormat::Q4, true),
        named_format("turboq4"@) == (KvFormat::Q4, true),
        "fp8"@ != "fp16"@,
        "fp8"@ != "f16"@,
        "f32"@ != "fp8"@,
        "f32"@ != "fp16"@,
        "f32"@ != "f16"@,
        "f32"@.len() > 0,
        "fp8"@.len() > 0,
        "fp16"@.len() > 0,
        "f16"@.len() > 0,
{
    reveal_strlit("fp8");
    assert("fp8"@.len() == 3 && "fp8"@[1] == 'p');
    reveal_strlit("fp16");
    assert("fp16"@.len() == 4 && "fp16"@[1] == 'p');
    reveal_strlit("f16");
    assert("f16"@.len() == 3 && "f16"@[1] == '1');
    reveal_strlit("int8");
    assert("int8"@.len() == 4 && "int8"@[1] == 'n');
    reveal_strlit("i8");
    assert("i8"@.len() == 2 && "i8"@[0] == 'i' && "i8"@[1] == '8');
    reveal_strlit("q8_0");
    assert("q8_0"@.len() == 4 && "q8_0"@[1] == '8');
    reveal_strlit("q8");
    assert("q8"@.len() == 2 && "q8"@[0] == 'q' && "q8"@[1] == '8');
    reveal_strlit("q4_0");
    assert("q4_0"@.len() == 4 && "q4_0"@[1] == '4');
    reveal_strlit("q4");
    assert("q4"@.len() == 2 && "q4"@[0] == 'q' && "q4"@[1] == '4');
    reveal_strlit("turbo8");
    assert("turbo8"@.len() == 6 && "turbo8"@[5] == '8');
    reveal_strlit("rotq8");
    assert("rotq8"@.len() == 5 && "rotq8"@[4] == '8');
    reveal_strlit("turboq8");
    assert("turboq8"@.len() == 7 && "turboq8"@[6] == '8');
    reveal_strlit("turbo4");
    assert("turbo4"@.len() == 6 && "turbo4"@[5] == '4');
    reveal_strlit("rotq4");
    assert("rotq4"@.len() == 5 && "rotq4"@[4] == '4');
    reveal_strlit("turboq4");
    assert("turboq4"@.len() == 7 && "turboq4"@[6] == '4');
    reveal_strlit("f32");
    assert("f32"@.len() == 3 && "f32"@[1] == '3');
}

/// Asking for the name that the banner shows gives the format that it
/// shows; the short and the long name of a format ask for the same.
pub proof fn banner_names_ask_for_themselves(c: KvChoice)
    requires
        c.rot ==> c.format == KvFormat::Q8 || c.format == KvFormat::Q4,
    ensures
        named_format(label(c)) == (c.format, c.rot),
        named_format("f16"@) == named_format("fp16"@),
        named_format("i8"@) == named_format("int8"@),
        named_format("q8"@) == named_format("q8_0"@),
        named_format("q4"@) == named_format("q4_0"@),
        named_format("rotq8"@) == named_format("turbo8"@),
        named_format("turboq8"@) == named_format("turbo8"@),
        named_format("rotq4"@) == named_format("turbo4"@),
        named_format("turboq4"@) == named_format("turbo4"@),
{
    lemma_format_names();
}

/// Per-head caches take the format that is asked for, and are rotated where
/// that is asked for and heads and rotation share a stride. Latent caches
/// take only the two float formats. Others stay exact whatever is asked.
pub proof fn requests_are_met_where_they_can_be(s: &Shape, v: Seq<char>, auto8: bool)
    ensures
        ({
            let c = kv_choice(s, Some(v), auto8);
            let packs = s.family == Family::Gqa || s.family == Family::Dsv4 || (s.family
                == Family::Qwen35 && s.n_expert != 1);
            let apart = (s.family == Family::Gqa || s.family == Family::Qwen35) && s.qk_nope
                + s.qk_rope > s.head_dim;
            &&& packs ==> c.format == named_format(v).0 && c.lat == LatFormat::F32
            &&& packs ==> (c.rot <==> named_format(v).1 && !apart)
            &&& packs ==> (c.note == KvNote::RotationOff <==> named_format(v).1 && apart)
            &&& !packs ==> c.format == KvFormat::F32 && !c.rot
            &&& s.family == Family::Mla ==> (c.lat == LatFormat::Fp8 <==> v == "fp8"@)
            &&& s.family == Family::Mla ==> (c.lat == LatFormat::Fp16 <==> v == "fp16"@ || v
                == "f16"@)
            &&& s.family == Family::Mla ==> (c.note == KvNote::NoLatent <==> v.len() > 0 && v
                != "f32"@ && v != "fp8"@ && v != "fp16"@ && v != "f16"@)
            &&& !packs && s.family != Family::Mla ==> c.lat == LatFormat::F32 && (c.note
                == KvNote::Ignored <==> v.len() > 0 && v != "f32"@)
            &&& c.note != KvNote::Auto
        }),
{
    lemma_format_names();
}

/// Without a request a cache is exact unless it would crowd out the experts,
/// and then it goes to 8-bit floats where its family can store them.
pub proof fn only_crowding_changes_the_default(s: &Shape)
    ensures
        ({
            let c = kv_choice(s, None, false);
            c.format == KvFormat::F32 && c.lat == LatFormat::F32 && !c.rot && c.note == KvNote::Quiet
        }),
        ({
            let c = kv_choice(s, None, true);
            let packs = s.family == Family::Gqa || s.family == Family::Dsv4 || (s.family
                == Family::Qwen35 && s.n_expert != 1);
            &&& !c.rot
            &&& c.format == (if packs {
                KvFormat::Fp8
            } else {
                KvFormat::F32
            })
            &&& c.lat == (if s.family == Family::Mla {
                LatFormat::Fp8
            } else {
                LatFormat::F32
            })
            &&& c.note == (if packs || s.family == Family::Mla {
                KvNote::Auto
            } else {
                KvNote::Quiet
            })
        }),
{
}

/// What a row of whole blocks takes: four, two or one byte an element, a
/// scale of four bytes beside a row of single bytes, and one of two bytes
/// beside each block of 32 in whole or in half bytes.
pub proof fn rows_hold_their_elements(blocks: int)
    requires
        0 <= blocks,
    ensures
        kv_row(KvFormat::F32, 32 * blocks) == blocks * 128,
        2 * kv_row(KvFormat::Fp16, 32 * blocks) == kv_row(KvFormat::F32, 32 * blocks),
        kv_row(KvFormat::Fp8, 32 * blocks) - 4 == 32 * blocks,
        kv_row(KvFormat::Int8, 32 * blocks) == kv_row(KvFormat::Fp8, 32 * blocks),
        kv_row(KvFormat::Q8, 32 * blocks) - 32 * blocks == 2 * blocks,
        2 * (kv_row(KvFormat::Q4, 32 * blocks) - 2 * blocks) == 32 * blocks,
        lat_row(LatFormat::F32, 32 * blocks) == kv_row(KvFormat::F32, 32 * blocks),
        lat_row(LatFormat::Fp8, 32 * blocks) == kv_row(KvFormat::Fp8, 32 * blocks),
        lat_row(LatFormat::Fp16, 32 * blocks) == kv_row(KvFormat::Fp16, 32 * blocks),
{
    assert((32 * blocks) / 32 == blocks);
}

/// In the hybrid that counts full-attention layers by an interval, a layer
/// that keeps a rolling state has no cache beyond a stub, and every
/// `interval`-th layer, and the draft layer, caches keys and values of every
/// head and position.
pub proof fn hybrid_slots_follow_the_layers(d: &KvDims, c: &KvChoice, i: int)
    requires
        d.shape.family == Family::Qwen35,
        d.shape.full_attn_interval > 0,
        0 <= i < d.slots(),
    ensures
        i < d.shape.n_exec_layer && (i + 1) % d.shape.full_attn_interval as int != 0
            ==> d.slot_bytes(c, i) == (4int, 4int) && d.exact_slot(i) == 8,
        i == d.shape.n_exec_layer || (i + 1) % d.shape.full_attn_interval as int == 0 ==> {
            let rows = d.shape.n_head_kv * d.ctx;
            &&& d.slot_bytes(c, i) == (
                rows * kv_row(c.format, d.shape.head_dim as int),
                rows * kv_row(c.format, d.shape.head_dim as int),
            )
            &&& d.exact_slot(i) == 2 * (rows * (4 * d.shape.head_dim))
        },
{
}

/// Per-head layers cache the same for keys and for values: each of the
/// layer's own heads, at every position. Latent layers cache one latent row
/// and one rotated row a position. The compressed family keeps a window of
/// raw rows, and a compressed row for each `ratio` positions and two more.
pub proof fn slots_hold_their_rows(d: &KvDims, c: &KvChoice, i: int)
    requires
        0 <= i < d.slots(),
    ensures
        ({
            let s = d.shape;
            let b = d.slot_bytes(c, i);
            let own = 0 <= i < d.geom@.len();
            let n = if own { d.geom@[i].n_head_kv } else { s.n_head_kv };
            let w = if own { d.geom@[i].head_dim } else { s.head_dim };
            let per_head = s.family == Family::Gqa || (s.family == Family::Mla && own);
            let latent = (s.family == Family::Mla && !own) || (s.family == Family::K3 && i
                < d.latent@.len() && d.latent@[i]);
            &&& per_head ==> b.0 == b.1 && b.0 == n * d.ctx * kv_row(c.format, w as int)
            &&& latent ==> b.0 == d.ctx * lat_row(c.lat, s.n_kv_lora as int) && b.1 == d.ctx
                * lat_row(c.lat, s.qk_rope as int)
            &&& s.family == Family::K3 && !latent ==> b == (4int, 4int)
            &&& s.family == Family::Dsv4 ==> {
                let row = kv_row(c.format, s.head_dim as int);
                let r = if i < d.ratios@.len() {
                    d.ratios@[i] as int
                } else {
                    0
                };
                &&& b.0 == s.n_swa * row
                &&& r == 0 ==> b.1 == 4
                &&& r != 0 ==> b.1 == (d.ctx as int / r + 2) * row
            }
        }),
{
}

/// What the exact caches are counted at is what their slots take.
pub proof fn exact_count_is_what_slots_take(d: &KvDims, i: int, note: KvNote)
    requires
        0 <= i < d.slots(),
        d.shape.family != Family::K3,
        d.shape.family == Family::Mla ==> d.geom@.len() == 0,
        d.shape.family == Family::Dsv4 ==> d.ratio(i) != 0,
    ensures
        ({
            let b = d.slot_bytes(
                &KvChoice { format: KvFormat::F32, rot: false, lat: LatFormat::F32, note },
                i,
            );
            d.exact_slot(i) == b.0 + b.1
        }),
{
    let s = d.shape;
    let x = d.ctx as int;
    let a = s.n_kv_lora as int;
    let r = s.qk_rope as int;
    assert((a + r) * x * 4 == x * (a * 4) + x * (r * 4)) by (nonlinear_arith);
    if s.family == Family::Dsv4 {
        let k = comp_rows(x, d.ratio(i) as int);
        let w = s.head_dim * 4;
        let n = s.n_swa as int;
        assert((n + k) * w == n * w + k * w) by (nonlinear_arith);
    }
}

/// The cards of a list are each listed once, in order of first sight.
pub proof fn cards_are_listed_once(f: Seq<i32>, n: int)
    requires
        0 <= n <= f.len(),
    ensures
        forall|i: int| 0 <= i < n ==> first_seen(f, n).contains(#[trigger] f[i]),
        forall|k: int|
            0 <= k < first_seen(f, n).len() ==> exists|i: int|
                0 <= i < n && f[i] == #[trigger] first_seen(f, n)[k] && forall|j: int|
                    0 <= j < i ==> #[trigger] f[j] != f[i],
        forall|a: int, b: int|
            0 <= a < b < first_seen(f, n).len() ==> #[trigger] first_seen(f, n)[a]
                != #[trigger] first_seen(f, n)[b],
    decreases n,
{
    if n > 0 {
        cards_are_listed_once(f, n - 1);
        let d = first_seen(f, n - 1);
        let e = first_seen(f, n);
        let x = f[n - 1];
        assert forall|i: int| 0 <= i < n implies e.contains(#[trigger] f[i]) by {
            if i < n - 1 {
                assert(d.contains(f[i]));
                let k = choose|k: int| 0 <= k < d.len() && d[k] == f[i];
                assert(e[k] == f[i]);
            } else if !d.contains(x) {
                assert(e[d.len() as int] == x);
            }
        }
        assert forall|k: int| 0 <= k < e.len() implies exists|i: int|
            0 <= i < n && f[i] == #[trigger] e[k] && forall|j: int|
                0 <= j < i ==> #[trigger] f[j] != f[i] by {
            if k < d.len() {
                assert(e[k] == d[k]);
                let i = choose|i: int|
                    0 <= i < n - 1 && f[i] == d[k] && forall|j: int|
                        0 <= j < i ==> #[trigger] f[j] != f[i];
                assert(f[i] == e[k]);
            } else {
                assert(f[n - 1] == e[k]);
                assert forall|j: int| 0 <= j < n - 1 implies #[trigger] f[j] != f[n - 1] by {
                    assert(d.contains(f[j]));
                }
            }
        }
    }
}

} // verus!
