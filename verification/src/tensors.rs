//! Tensor encodings: what can be run as it is, what is converted at load,
//! and where the slabs of a routed-expert tensor lie.

use vstd::prelude::*;

use crate::header::{Header, TensorInfo, TensorType};
use crate::store::Read;
use crate::text;

verus! {

/// Encodings the expert kernels multiply directly.
#[derive(Clone, Copy, Debug, PartialEq, Eq, Structural)]
pub enum Quant {
    IQ2XXS,
    Q2K,
    Q4K,
    Q5K,
    Q6K,
    Q3K,
    IQ2XS,
    IQ3XXS,
    Q4_0,
    Q5_1,
    Q8_0,
    IQ4XS,
    IQ4NL,
    IQ3S,
    IQ2S,
    IQ1S,
    MXFP4,
}

/// The kernel encoding of a tensor type, where there is one.
pub open spec fn quant_of(ty: TensorType) -> Option<Quant> {
    match ty {
        TensorType::IQ2XXS => Some(Quant::IQ2XXS),
        TensorType::Q2K => Some(Quant::Q2K),
        TensorType::Q4K => Some(Quant::Q4K),
        TensorType::Q5K => Some(Quant::Q5K),
        TensorType::Q6K => Some(Quant::Q6K),
        TensorType::Q3K => Some(Quant::Q3K),
        TensorType::IQ2XS => Some(Quant::IQ2XS),
        TensorType::IQ3XXS => Some(Quant::IQ3XXS),
        TensorType::Q4_0 => Some(Quant::Q4_0),
        TensorType::Q5_1 => Some(Quant::Q5_1),
        TensorType::Q8_0 => Some(Quant::Q8_0),
        TensorType::IQ4XS => Some(Quant::IQ4XS),
        TensorType::IQ4NL => Some(Quant::IQ4NL),
        TensorType::IQ3S => Some(Quant::IQ3S),
        TensorType::IQ2S => Some(Quant::IQ2S),
        TensorType::IQ1S => Some(Quant::IQ1S),
        TensorType::MXFP4 => Some(Quant::MXFP4),
        TensorType::F32 | TensorType::F16 | TensorType::BF16 | TensorType::Other => None,
    }
}

/// The kernel encoding of a tensor type, where there is one.
pub fn quant_code(ty: TensorType) -> (r: Option<Quant>)
    ensures
        r == quant_of(ty),
{
    match ty {
        TensorType::IQ2XXS => Some(Quant::IQ2XXS),
        TensorType::Q2K => Some(Quant::Q2K),
        TensorType::Q4K => Some(Quant::Q4K),
        TensorType::Q5K => Some(Quant::Q5K),
        TensorType::Q6K => Some(Quant::Q6K),
        TensorType::Q3K => Some(Quant::Q3K),
        TensorType::IQ2XS => Some(Quant::IQ2XS),
        TensorType::IQ3XXS => Some(Quant::IQ3XXS),
        TensorType::Q4_0 => Some(Quant::Q4_0),
        TensorType::Q5_1 => Some(Quant::Q5_1),
        TensorType::Q8_0 => Some(Quant::Q8_0),
        TensorType::IQ4XS => Some(Quant::IQ4XS),
        TensorType::IQ4NL => Some(Quant::IQ4NL),
        TensorType::IQ3S => Some(Quant::IQ3S),
        TensorType::IQ2S => Some(Quant::IQ2S),
        TensorType::IQ1S => Some(Quant::IQ1S),
        TensorType::MXFP4 => Some(Quant::MXFP4),
        _ => None,
    }
}

/// The encodings in which the output head is read as it is.
pub open spec fn head_quant_of(ty: TensorType) -> Option<Quant> {
    match ty {
        TensorType::Q2K
        | TensorType::IQ2XXS
        | TensorType::Q4K
        | TensorType::Q5K
        | TensorType::Q6K
        | TensorType::Q3K => quant_of(ty),
        _ => None,
    }
}

/// The encoding in which the output head is read, where it is not converted.
pub fn head_quant(ty: TensorType) -> (r: Option<Quant>)
    ensures
        r == head_quant_of(ty),
{
    match ty {
        TensorType::Q2K
        | TensorType::IQ2XXS
        | TensorType::Q4K
        | TensorType::Q5K
        | TensorType::Q6K
        | TensorType::Q3K => quant_code(ty),
        _ => None,
    }
}

/// The encodings that the CPU lane can multiply.
pub open spec fn cpu_supports(q: Quant) -> bool {
    q == Quant::IQ2XXS || q == Quant::IQ2XS || q == Quant::IQ3XXS || q == Quant::Q2K || q
        == Quant::Q3K || q == Quant::Q4K
}

/// True of the encodings that the CPU lane can multiply.
pub fn supported(q: Quant) -> (r: bool)
    ensures
        r == cpu_supports(q),
{
    match q {
        Quant::IQ2XXS
        | Quant::IQ2XS
        | Quant::IQ3XXS
        | Quant::Q2K
        | Quant::Q3K
        | Quant::Q4K => true,
        _ => false,
    }
}

/// The five block encodings with 256 elements per block.
pub open spec fn is_k_quant(ty: TensorType) -> bool {
    ty == TensorType::Q2K || ty == TensorType::Q3K || ty == TensorType::Q4K || ty == TensorType::Q5K
        || ty == TensorType::Q6K
}

fn k_quant(ty: TensorType) -> (r: bool)
    ensures
        r == is_k_quant(ty),
{
    match ty {
        TensorType::Q2K
        | TensorType::Q3K
        | TensorType::Q4K
        | TensorType::Q5K
        | TensorType::Q6K => true,
        _ => false,
    }
}

/// A matrix that stays in its file encoding: it has a fast product and its
/// rows are whole blocks.
pub open spec fn stays_native(t: &TensorInfo) -> bool {
    (t.ty == TensorType::Q4K || t.ty == TensorType::Q6K) && t.dims@[0] % 256 == 0
}

/// True when a matrix should stay in its file encoding.
pub fn keep_native(t: &TensorInfo) -> (r: bool)
    requires
        t.ty == TensorType::Q4K || t.ty == TensorType::Q6K ==> t.dims@.len() > 0,
    ensures
        r == stays_native(t),
{
    (t.ty == TensorType::Q4K || t.ty == TensorType::Q6K) && t.dims[0] % 256 == 0
}

/// What happens to a tensor's bytes on the way to a matrix product.
#[derive(Clone, Copy, Debug, PartialEq, Eq, Structural)]
pub enum ReadPath {
    /// Used as they are.
    Raw,
    /// 16-bit floats turned into 8-bit blocks.
    HalfToQ8,
    /// Brain floats turned into 8-bit blocks.
    BrainToQ8,
    /// 256-element blocks turned into 8-bit blocks.
    BlocksToQ8,
    /// 16-bit or brain floats whose count is no multiple of the block.
    BadWidth,
}

/// How the bytes of `t` are read for a matrix product. The output head keeps
/// its encoding.
pub open spec fn read_path_of(t: &TensorInfo) -> ReadPath {
    if (t.ty == TensorType::F16 || t.ty == TensorType::BF16) && t.dims@.len() >= 2 {
        if t.n_elements % 32 != 0 {
            ReadPath::BadWidth
        } else if t.ty == TensorType::BF16 {
            ReadPath::BrainToQ8
        } else {
            ReadPath::HalfToQ8
        }
    } else if is_k_quant(t.ty) && t.name@ != "output.weight"@ {
        ReadPath::BlocksToQ8
    } else {
        ReadPath::Raw
    }
}

/// How the bytes of `t` are read for a matrix product.
pub fn read_path(t: &TensorInfo) -> (p: ReadPath)
    ensures
        p == read_path_of(t),
{
    if (t.ty == TensorType::F16 || t.ty == TensorType::BF16) && t.dims.len() >= 2 {
        if t.n_elements % 32 != 0 {
            return ReadPath::BadWidth;
        }
        if t.ty == TensorType::BF16 {
            return ReadPath::BrainToQ8;
        }
        return ReadPath::HalfToQ8;
    }
    if k_quant(t.ty) && !text::same(t.name.as_str(), "output.weight") {
        return ReadPath::BlocksToQ8;
    }
    ReadPath::Raw
}

/// What happens to a tensor's bytes on the way to 32-bit floats.
#[derive(Clone, Copy, Debug, PartialEq, Eq, Structural)]
pub enum FloatPath {
    Raw,
    Half,
    Brain,
    Q4K,
    Q8_0,
    /// Blocks of 256 weights, one after the other.
    Blocks,
    /// 8-bit blocks whose element count is no multiple of the block.
    BadWidth,
    /// No way to floats.
    Unsupported,
}

/// How the bytes of `t` become 32-bit floats.
pub open spec fn float_path_of(t: &TensorInfo) -> FloatPath {
    match t.ty {
        TensorType::F32 => FloatPath::Raw,
        TensorType::F16 => FloatPath::Half,
        TensorType::BF16 => FloatPath::Brain,
        TensorType::Q4K => FloatPath::Q4K,
        TensorType::Q8_0 => if t.n_elements % 32 == 0 {
            FloatPath::Q8_0
        } else {
            FloatPath::BadWidth
        },
        TensorType::Q2K | TensorType::Q3K | TensorType::Q5K | TensorType::Q6K => FloatPath::Blocks,
        _ => FloatPath::Unsupported,
    }
}

/// How the bytes of `t` become 32-bit floats.
pub fn float_path(t: &TensorInfo) -> (p: FloatPath)
    ensures
        p == float_path_of(t),
{
    match t.ty {
        TensorType::F32 => FloatPath::Raw,
        TensorType::F16 => FloatPath::Half,
        TensorType::BF16 => FloatPath::Brain,
        TensorType::Q4K => FloatPath::Q4K,
        TensorType::Q8_0 => if t.n_elements % 32 == 0 {
            FloatPath::Q8_0
        } else {
            FloatPath::BadWidth
        },
        TensorType::Q2K | TensorType::Q3K | TensorType::Q5K | TensorType::Q6K => FloatPath::Blocks,
        _ => FloatPath::Unsupported,
    }
}

/// Bytes a tensor takes in device memory when its layer is resident whole:
/// block encodings grow to 34 bytes per 32 elements unless they stay native.
pub open spec fn vram_of(t: &TensorInfo) -> u64 {
    let ffn_raw = text::ends_with(t.name@, "ffn_gate.weight"@) || text::ends_with(
        t.name@,
        "ffn_up.weight"@,
    ) || text::ends_with(t.name@, "ffn_down.weight"@);
    if is_k_quant(t.ty) && !(ffn_raw || stays_native(t)) {
        ((t.n_elements / 32) * 34) as u64
    } else {
        match t.byte_size {
            Some(n) => n,
            None => 0,
        }
    }
}

/// Bytes a tensor takes in device memory when its layer is resident whole.
pub fn vram_bytes(t: &TensorInfo) -> (n: u64)
    requires
        t.ty == TensorType::Q4K || t.ty == TensorType::Q6K ==> t.dims@.len() > 0,
        (t.n_elements / 32) * 34 <= u64::MAX,
    ensures
        n == vram_of(t),
{
    let name: &str = t.name.as_str();
    let ffn_raw: bool = text::has_suffix(name, "ffn_gate.weight") || text::has_suffix(
        name,
        "ffn_up.weight",
    ) || text::has_suffix(name, "ffn_down.weight");
    if k_quant(t.ty) && !(ffn_raw || keep_native(t)) {
        (t.n_elements / 32) * 34
    } else {
        match t.byte_size {
            Some(n) => n,
            None => 0,
        }
    }
}

/// Place `bytes` of attention weights: device memory while the budget lasts,
/// pinned host memory after. Returns the place and what is left.
pub fn spend_budget(budget: i64, bytes: u64, force_host: bool) -> (r: (bool, i64))
    requires
        bytes <= i64::MAX,
    ensures
        r.0 == (!force_host && budget >= bytes),
        r.1 == if r.0 { budget - bytes } else { budget as int },
{
    if !force_host && budget >= bytes as i64 {
        (true, budget - bytes as i64)
    } else {
        (false, budget)
    }
}

/// Where a routed-expert tensor lies in the file: one slab of equal size per
/// expert.
#[derive(Clone, Copy, Debug, PartialEq, Eq, Structural)]
pub struct ExpertTensor {
    pub abs_offset: u64,
    pub expert_bytes: u64,
    pub row_bytes: u64,
    pub quant: Quant,
}

/// Start of the slab of expert `e`.
pub open spec fn slab_offset(t: ExpertTensor, e: int) -> int {
    t.abs_offset + e * t.expert_bytes
}

/// Every slab of `n` experts has an offset that fits 64 bits.
pub open spec fn addressable(t: ExpertTensor, n: nat) -> bool {
    slab_offset(t, n as int) <= u64::MAX
}

impl ExpertTensor {
    /// The layout of a routed-expert tensor of `n_expert` experts; `None`
    /// when its encoding has no expert kernel.
    pub fn new(h: &Header, t: &TensorInfo, n_expert: u32) -> (r: Option<ExpertTensor>)
        requires
            quant_of(t.ty) is Some ==> {
                &&& t.dims@.len() >= 3
                &&& t.dims@[2] == n_expert
                &&& t.row_bytes is Some
                &&& h.data_offset + t.offset <= u64::MAX
                &&& t.row_bytes->0 * t.dims@[1] <= u64::MAX
            },
        ensures
            match r {
                Some(x) => quant_of(t.ty) == Some(x.quant) && x.abs_offset == h.data_offset
                    + t.offset && Some(x.row_bytes) == t.row_bytes && x.expert_bytes == x.row_bytes
                    * t.dims@[1],
                None => quant_of(t.ty) is None,
            },
    {
        let quant: Quant = match quant_code(t.ty) {
            Some(q) => q,
            None => {
                return None;
            },
        };
        let row_bytes: u64 = t.row_bytes.unwrap();
        Some(
            ExpertTensor {
                abs_offset: h.data_offset + t.offset,
                expert_bytes: row_bytes * t.dims[1],
                row_bytes,
                quant,
            },
        )
    }

    /// The slab of expert `e`.
    pub fn slab(&self, e: u64) -> (r: Read)
        requires
            slab_offset(*self, e as int) <= u64::MAX,
        ensures
            r.offset == slab_offset(*self, e as int),
            r.len == self.expert_bytes,
    {
        proof {
            assert(e * self.expert_bytes >= 0) by (nonlinear_arith);
        }
        Read { offset: self.abs_offset + e * self.expert_bytes, len: self.expert_bytes }
    }
}

pub proof fn lemma_slab_bound(t: ExpertTensor, e: int, n: nat)
    requires
        0 <= e <= n,
        addressable(t, n),
    ensures
        slab_offset(t, e) <= u64::MAX,
        slab_offset(t, e) >= 0,
{
    assert(e * t.expert_bytes <= n * t.expert_bytes) by (nonlinear_arith)
        requires
            e <= n,
            0 <= t.expert_bytes,
    ;
    assert(0 <= e * t.expert_bytes) by (nonlinear_arith)
        requires
            0 <= e,
            0 <= t.expert_bytes,
    ;
}

/// The slabs of two experts of one tensor do not overlap.
pub proof fn slabs_are_disjoint(t: ExpertTensor, a: int, b: int)
    requires
        0 <= a < b,
    ensures
        slab_offset(t, a) + t.expert_bytes <= slab_offset(t, b),
{
    assert((a + 1) * t.expert_bytes <= b * t.expert_bytes) by (nonlinear_arith)
        requires
            a + 1 <= b,
            0 <= t.expert_bytes,
    ;
    assert((a + 1) * t.expert_bytes == a * t.expert_bytes + t.expert_bytes) by (nonlinear_arith);
}

/// Every block encoding has a kernel of its own: no two types share one, and
/// the plain floats have none.
pub proof fn kernels_tell_types_apart(a: TensorType, b: TensorType)
    ensures
        quant_of(a) is Some && quant_of(a) == quant_of(b) ==> a == b,
        quant_of(a) is None <==> a == TensorType::F32 || a == TensorType::F16 || a
            == TensorType::BF16 || a == TensorType::Other,
        quant_of(TensorType::Q2K) == Some(Quant::Q2K) && quant_of(TensorType::Q3K) == Some(
            Quant::Q3K,
        ) && quant_of(TensorType::Q4K) == Some(Quant::Q4K) && quant_of(TensorType::Q5K) == Some(
            Quant::Q5K,
        ) && quant_of(TensorType::Q6K) == Some(Quant::Q6K),
        quant_of(TensorType::IQ2XXS) == Some(Quant::IQ2XXS) && quant_of(TensorType::IQ2XS) == Some(
            Quant::IQ2XS,
        ) && quant_of(TensorType::IQ2S) == Some(Quant::IQ2S) && quant_of(TensorType::IQ1S) == Some(
            Quant::IQ1S,
        ),
        quant_of(TensorType::IQ3XXS) == Some(Quant::IQ3XXS) && quant_of(TensorType::IQ3S) == Some(
            Quant::IQ3S,
        ) && quant_of(TensorType::IQ4XS) == Some(Quant::IQ4XS) && quant_of(TensorType::IQ4NL)
            == Some(Quant::IQ4NL),
        quant_of(TensorType::Q4_0) == Some(Quant::Q4_0) && quant_of(TensorType::Q5_1) == Some(
            Quant::Q5_1,
        ) && quant_of(TensorType::Q8_0) == Some(Quant::Q8_0) && quant_of(TensorType::MXFP4) == Some(
            Quant::MXFP4,
        ),
{
}

/// The output head is read as it is in the blocks of 256 and in one encoding
/// more, by the kernel of its own type; the processor multiplies six
/// encodings, all of them encodings that a tensor can have.
pub proof fn heads_and_lanes_read_few_encodings(ty: TensorType, q: Quant)
    ensures
        head_quant_of(ty) is Some <==> is_k_quant(ty) || ty == TensorType::IQ2XXS,
        head_quant_of(ty) is Some ==> head_quant_of(ty) == quant_of(ty),
        is_k_quant(ty) <==> ty == TensorType::Q2K || ty == TensorType::Q3K || ty == TensorType::Q4K
            || ty == TensorType::Q5K || ty == TensorType::Q6K,
        cpu_supports(q) <==> Some(q) == quant_of(TensorType::IQ2XXS) || Some(q) == quant_of(
            TensorType::IQ2XS,
        ) || Some(q) == quant_of(TensorType::IQ3XXS) || Some(q) == quant_of(TensorType::Q2K)
            || Some(q) == quant_of(TensorType::Q3K) || Some(q) == quant_of(TensorType::Q4K),
{
}

/// Half and brain floats in matrices become 8-bit blocks where they fill
/// them; blocks of 256 do too but for the output head; the rest is read as
/// it is.
pub proof fn products_read_blocks_or_bytes(t: &TensorInfo)
    ensures
        ({
            let p = read_path_of(t);
            let matrix = t.dims@.len() > 1;
            let fills = t.n_elements % 32 == 0;
            &&& p == ReadPath::HalfToQ8 <==> t.ty == TensorType::F16 && matrix && fills
            &&& p == ReadPath::BrainToQ8 <==> t.ty == TensorType::BF16 && matrix && fills
            &&& p == ReadPath::BadWidth <==> (t.ty == TensorType::F16 || t.ty == TensorType::BF16)
                && matrix && !fills
            &&& p == ReadPath::BlocksToQ8 <==> is_k_quant(t.ty) && t.name@ != "output.weight"@
        }),
{
}

/// A tensor can become floats where it is floats, blocks of 256, or blocks of
/// 32 that it fills.
pub proof fn floats_come_from_few_types(t: &TensorInfo)
    ensures
        ({
            let p = float_path_of(t);
            &&& p == FloatPath::Raw <==> t.ty == TensorType::F32
            &&& p == FloatPath::Half <==> t.ty == TensorType::F16
            &&& p == FloatPath::Brain <==> t.ty == TensorType::BF16
            &&& p == FloatPath::Q4K <==> t.ty == TensorType::Q4K
            &&& p == FloatPath::Blocks <==> is_k_quant(t.ty) && t.ty != TensorType::Q4K
            &&& p == FloatPath::Q8_0 <==> t.ty == TensorType::Q8_0 && t.n_elements % 32 == 0
            &&& p == FloatPath::BadWidth <==> t.ty == TensorType::Q8_0 && t.n_elements % 32 != 0
        }),
{
}

/// On a card a tensor takes the bytes that it has in its file, unless it is
/// in blocks of 256 that are turned into blocks of 32 with two bytes of
/// scale: all but the feed-forward's three matrices, and all but those in
/// two encodings whose rows are whole blocks.
pub proof fn cards_hold_files_or_blocks(t: &TensorInfo)
    requires
        (t.n_elements / 32) * 34 <= u64::MAX,
    ensures
        ({
            let ffn = text::ends_with(t.name@, "ffn_gate.weight"@) || text::ends_with(
                t.name@,
                "ffn_up.weight"@,
            ) || text::ends_with(t.name@, "ffn_down.weight"@);
            let whole = (t.ty == TensorType::Q4K || t.ty == TensorType::Q6K) && t.dims@[0] % 256
                == 0;
            &&& !is_k_quant(t.ty) || ffn || whole ==> (t.byte_size is Some ==> vram_of(t)
                == t.byte_size->0) && (t.byte_size is None ==> vram_of(t) == 0)
            &&& is_k_quant(t.ty) && !ffn && !whole ==> vram_of(t) == 32 * (t.n_elements / 32) + 2 * (
            t.n_elements / 32)
            &&& stays_native(t) <==> whole
        }),
{
}

} // verus!
