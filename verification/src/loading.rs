//! Expert layout of a layer, relative-position tables, resident draft
//! experts, and the notice about tensors that nothing read.

use vstd::prelude::*;

use crate::bank::ExpertBank;
use crate::dev_cache::SLAB_SLACK;
use crate::header;
use crate::header::{Header, TensorInfo};
use crate::layer_plan;
use crate::shape::{Arch, Family, Shape};
use crate::tensors;
use crate::tensors::ExpertTensor;
use crate::text;

verus! {

/// Why a layer's experts cannot be laid out; both name the tensor.
pub enum LoadError {
    Missing(String),
    Unsupported(String),
}

/// `LoadError`, with its text as characters.
pub enum LoadFault {
    Missing(Seq<char>),
    Unsupported(Seq<char>),
}

impl LoadError {
    pub open spec fn fault(self) -> LoadFault {
        match self {
            LoadError::Missing(n) => LoadFault::Missing(n@),
            LoadError::Unsupported(n) => LoadFault::Unsupported(n@),
        }
    }
}

/// The sizes of an expert tensor are what a layout needs.
pub open spec fn expert_ok(h: &Header, t: &TensorInfo, n: u32) -> bool {
    tensors::quant_of(t.ty) is Some ==> {
        &&& t.dims@.len() >= 3
        &&& t.dims@[2] == n
        &&& t.row_bytes is Some
        &&& h.data_offset + t.offset <= u64::MAX
        &&& t.row_bytes->0 * t.dims@[1] <= u64::MAX
        &&& h.data_offset + t.offset + n * (t.row_bytes->0 * t.dims@[1]) <= u64::MAX
    }
}

/// The sizes of an expert tensor are what a layout needs.
pub fn expert_fits(h: &Header, t: &TensorInfo, n: u32) -> (r: bool)
    ensures
        r == expert_ok(h, t, n),
{
    if tensors::quant_code(t.ty).is_none() {
        return true;
    }
    if t.dims.len() < 3 || t.dims[2] != n as u64 {
        return false;
    }
    let row: u64 = match t.row_bytes {
        Some(r) => r,
        None => {
            return false;
        },
    };
    let bytes: u64 = match row.checked_mul(t.dims[1]) {
        Some(b) => b,
        None => {
            return false;
        },
    };
    let total: u64 = match bytes.checked_mul(n as u64) {
        Some(b) => b,
        None => {
            proof {
                assert(n * (row * t.dims@[1]) == bytes * n) by (nonlinear_arith)
                    requires
                        bytes == row * t.dims@[1],
                ;
            }
            return false;
        },
    };
    proof {
        assert(n * (row * t.dims@[1]) == bytes * n) by (nonlinear_arith)
            requires
                bytes == row * t.dims@[1],
        ;
    }
    match h.data_offset.checked_add(t.offset) {
        Some(a) => a.checked_add(total).is_some(),
        None => false,
    }
}

/// The layout of an expert tensor, where its encoding has a kernel.
pub open spec fn layout(h: &Header, t: &TensorInfo) -> Option<ExpertTensor> {
    match tensors::quant_of(t.ty) {
        Some(q) => Some(
            ExpertTensor {
                abs_offset: (h.data_offset + t.offset) as u64,
                expert_bytes: (t.row_bytes->0 * t.dims@[1]) as u64,
                row_bytes: t.row_bytes->0,
                quant: q,
            },
        ),
        None => None,
    }
}

/// The tensor of one part of a layer's experts, as far as it can be laid out.
pub open spec fn experts(h: &Header, il: nat, part: Seq<char>) -> Option<ExpertTensor> {
    match h.tensor_named(header::blk_name(il, part)) {
        Some(t) => layout(h, &t),
        None => None,
    }
}

/// What keeps one part from being laid out.
pub open spec fn part_fault(h: &Header, il: nat, part: Seq<char>) -> Option<LoadFault> {
    let name = header::blk_name(il, part);
    match h.tensor_named(name) {
        Some(t) => if layout(h, &t) is None { Some(LoadFault::Unsupported(name)) } else { None },
        None => Some(LoadFault::Missing(name)),
    }
}

/// One part, where it is there, has sizes that a layout needs.
pub open spec fn part_ok(h: &Header, il: nat, part: Seq<char>, n: u32) -> bool {
    match h.tensor_named(header::blk_name(il, part)) {
        Some(t) => expert_ok(h, &t, n),
        None => true,
    }
}

/// Gate and up share one tensor.
pub open spec fn fused(h: &Header, il: nat) -> bool {
    layer_plan::carries(h, il, "ffn_gate_up_exps.weight"@)
}

/// The part that holds gate rows.
pub open spec fn gate_part(h: &Header, il: nat) -> Seq<char> {
    if fused(h, il) {
        "ffn_gate_up_exps.weight"@
    } else {
        "ffn_gate_exps.weight"@
    }
}

/// The part that holds the up rows.
pub open spec fn up_part(h: &Header, il: nat) -> Seq<char> {
    if fused(h, il) {
        "ffn_gate_up_exps.weight"@
    } else {
        "ffn_up_exps.weight"@
    }
}

pub open spec fn first_fault(a: Option<LoadFault>, b: Option<LoadFault>) -> Option<LoadFault> {
    match a {
        Some(f) => Some(f),
        None => b,
    }
}

/// What keeps a layer's experts from being laid out: the first part, in
/// loading order, that is missing or has no kernel.
pub open spec fn bank_fault(h: &Header, arch: Arch, il: nat) -> Option<LoadFault> {
    let routed = first_fault(
        first_fault(part_fault(h, il, gate_part(h, il)), part_fault(h, il, up_part(h, il))),
        part_fault(h, il, "ffn_down_exps.weight"@),
    );
    if arch == Arch::Inkling {
        first_fault(
            first_fault(
                first_fault(routed, part_fault(h, il, "ffn_gate_shexp.weight"@)),
                part_fault(h, il, "ffn_up_shexp.weight"@),
            ),
            part_fault(h, il, "ffn_down_shexp.weight"@),
        )
    } else {
        routed
    }
}

/// The sizes of a layer's experts are what a layout needs.
pub open spec fn bank_ok(h: &Header, s: &Shape, arch: Arch, il: nat) -> bool {
    let n = s.n_expert;
    &&& part_ok(h, il, gate_part(h, il), n)
    &&& part_ok(h, il, up_part(h, il), n)
    &&& part_ok(h, il, "ffn_down_exps.weight"@, n)
    &&& fused(h, il) && experts(h, il, gate_part(h, il)) is Some ==> experts(
        h,
        il,
        gate_part(h, il),
    )->0.row_bytes * s.n_ff_exp <= u64::MAX
    &&& arch == Arch::Inkling ==> {
        &&& n + s.n_shexp_sink <= u32::MAX
        &&& part_ok(h, il, "ffn_gate_shexp.weight"@, s.n_shexp_sink)
        &&& part_ok(h, il, "ffn_up_shexp.weight"@, s.n_shexp_sink)
        &&& part_ok(h, il, "ffn_down_shexp.weight"@, s.n_shexp_sink)
    }
}

fn expert_part(h: &Header, il: u32, part: &str, n: u32) -> (r: Result<ExpertTensor, LoadError>)
    requires
        part_ok(h, il as nat, part@, n),
    ensures
        match r {
            Ok(t) => experts(h, il as nat, part@) == Some(t) && part_fault(h, il as nat, part@) is None
                && tensors::addressable(t, n as nat),
            Err(e) => part_fault(h, il as nat, part@) == Some(e.fault()),
        },
{
    let name = header::blk(il as u64, part);
    match h.tensor(name.as_str()) {
        Some(t) => match ExpertTensor::new(h, t, n) {
            Some(x) => Ok(x),
            None => Err(LoadError::Unsupported(name)),
        },
        None => Err(LoadError::Missing(name)),
    }
}

/// The sizes of one part are what a layout needs.
fn part_fits(h: &Header, il: u32, part: &str, n: u32) -> (r: bool)
    ensures
        r == part_ok(h, il as nat, part@, n),
{
    let name = header::blk(il as u64, part);
    match h.tensor(name.as_str()) {
        Some(t) => expert_fits(h, t, n),
        None => true,
    }
}

/// The sizes of a layer's experts are what a layout needs.
pub fn bank_fits(h: &Header, s: &Shape, arch: Arch, il: u32) -> (r: bool)
    ensures
        r == bank_ok(h, s, arch, il as nat),
{
    let both = header::blk(il as u64, "ffn_gate_up_exps.weight");
    let n: u32 = s.n_expert;
    match h.tensor(both.as_str()) {
        Some(t) => {
            if !expert_fits(h, t, n) {
                return false;
            }
            if tensors::quant_code(t.ty).is_some() && t.row_bytes.unwrap().checked_mul(
                s.n_ff_exp as u64,
            ).is_none() {
                return false;
            }
        },
        None => {
            if !part_fits(h, il, "ffn_gate_exps.weight", n) || !part_fits(
                h,
                il,
                "ffn_up_exps.weight",
                n,
            ) {
                return false;
            }
        },
    }
    if !part_fits(h, il, "ffn_down_exps.weight", n) {
        return false;
    }
    if arch == Arch::Inkling {
        let k: u32 = s.n_shexp_sink;
        n.checked_add(k).is_some() && part_fits(h, il, "ffn_gate_shexp.weight", k) && part_fits(
            h,
            il,
            "ffn_up_shexp.weight",
            k,
        ) && part_fits(h, il, "ffn_down_shexp.weight", k)
    } else {
        true
    }
}

/// `b` is the expert layout of the layer.
pub open spec fn is_bank(b: &ExpertBank, h: &Header, s: &Shape, arch: Arch, il: nat) -> bool {
    &&& experts(h, il, gate_part(h, il)) == Some(b.gate)
    &&& experts(h, il, up_part(h, il)) == Some(b.up)
    &&& experts(h, il, "ffn_down_exps.weight"@) == Some(b.down)
    &&& b.fused_up_off == if fused(h, il) { b.gate.row_bytes * s.n_ff_exp } else { 0 }
    &&& b.n_expert == s.n_expert
    &&& match b.sink {
        Some(x) => arch == Arch::Inkling && b.n_sink == s.n_shexp_sink && experts(
            h,
            il,
            "ffn_gate_shexp.weight"@,
        ) == Some(x@[0]) && experts(h, il, "ffn_up_shexp.weight"@) == Some(x@[1]) && experts(
            h,
            il,
            "ffn_down_shexp.weight"@,
        ) == Some(x@[2]),
        None => arch != Arch::Inkling && b.n_sink == 0,
    }
}

/// The expert layout of a layer, or the first part that has none.
pub fn load_bank(h: &Header, s: &Shape, arch: Arch, il: u32) -> (r: Result<ExpertBank, LoadError>)
    requires
        bank_ok(h, s, arch, il as nat),
    ensures
        match r {
            Ok(b) => bank_fault(h, arch, il as nat) is None && is_bank(&b, h, s, arch, il as nat)
                && b.wf(),
            Err(e) => bank_fault(h, arch, il as nat) == Some(e.fault()),
        },
{
    let both = header::blk(il as u64, "ffn_gate_up_exps.weight");
    let is_fused: bool = h.tensor(both.as_str()).is_some();
    let n: u32 = s.n_expert;
    let (gate, up, fused_up_off): (ExpertTensor, ExpertTensor, u64) = if is_fused {
        match expert_part(h, il, "ffn_gate_up_exps.weight", n) {
            Ok(g) => (g, g, g.row_bytes * s.n_ff_exp as u64),
            Err(e) => {
                return Err(e);
            },
        }
    } else {
        let g = match expert_part(h, il, "ffn_gate_exps.weight", n) {
            Ok(g) => g,
            Err(e) => {
                return Err(e);
            },
        };
        let u = match expert_part(h, il, "ffn_up_exps.weight", n) {
            Ok(u) => u,
            Err(e) => {
                return Err(e);
            },
        };
        (g, u, 0)
    };
    let down = match expert_part(h, il, "ffn_down_exps.weight", n) {
        Ok(d) => d,
        Err(e) => {
            return Err(e);
        },
    };
    if arch != Arch::Inkling {
        return Ok(ExpertBank { gate, up, down, fused_up_off, sink: None, n_expert: n, n_sink: 0 });
    }
    let k: u32 = s.n_shexp_sink;
    let sg = match expert_part(h, il, "ffn_gate_shexp.weight", k) {
        Ok(t) => t,
        Err(e) => {
            return Err(e);
        },
    };
    let su = match expert_part(h, il, "ffn_up_shexp.weight", k) {
        Ok(t) => t,
        Err(e) => {
            return Err(e);
        },
    };
    let sd = match expert_part(h, il, "ffn_down_shexp.weight", k) {
        Ok(t) => t,
        Err(e) => {
            return Err(e);
        },
    };
    Ok(
        ExpertBank {
            gate,
            up,
            down,
            fused_up_off,
            sink: Some([sg, su, sd]),
            n_expert: n,
            n_sink: k,
        },
    )
}

/// Rows and columns change places.
pub open spec fn is_transposed(t: Seq<u32>, raw: Seq<u32>, ext: int, dr: int) -> bool {
    &&& t.len() == raw.len()
    &&& forall|d: int, e: int|
        0 <= d < dr && 0 <= e < ext ==> #[trigger] t[e * dr + d] == raw[d * ext + e]
}

proof fn lemma_cell(e: int, d: int, ext: int, dr: int)
    requires
        0 <= d < dr,
        0 <= e < ext,
    ensures
        0 <= e * dr + d < ext * dr,
        0 <= d * ext + e < ext * dr,
{
    assert(0 <= e * dr + d < ext * dr) by (nonlinear_arith)
        requires
            0 <= d < dr,
            0 <= e < ext,
    ;
    assert(0 <= d * ext + e < ext * dr) by (nonlinear_arith)
        requires
            0 <= d < dr,
            0 <= e < ext,
    ;
}

proof fn lemma_cells_differ(e: int, d: int, f: int, c: int, dr: int)
    requires
        0 <= d < dr,
        0 <= c < dr,
        e * dr + d == f * dr + c,
    ensures
        e == f && d == c,
{
    assert(e == f) by (nonlinear_arith)
        requires
            0 <= d < dr,
            0 <= c < dr,
            e * dr + d == f * dr + c,
    ;
}

/// Transpose a `dr` by `ext` table of float bits; `None` when the table has
/// another size.
pub fn transpose(raw: &Vec<u32>, ext: u32, dr: u32) -> (r: Option<Vec<u32>>)
    ensures
        match r {
            Some(t) => raw@.len() == ext * dr && is_transposed(t@, raw@, ext as int, dr as int),
            None => raw@.len() != ext * dr,
        },
{
    proof {
        assert(ext * dr <= 0xffff_ffff * 0xffff_ffff) by (nonlinear_arith)
            requires
                ext <= 0xffff_ffff,
                dr <= 0xffff_ffff,
        ;
    }
    if raw.len() as u64 != ext as u64 * dr as u64 {
        return None;
    }
    let n: usize = raw.len();
    let ex: usize = ext as usize;
    let dd: usize = dr as usize;
    let mut t: Vec<u32> = Vec::new();
    let mut z: usize = 0;
    while z < n
        invariant
            z <= n,
            t@.len() == z,
        decreases n - z,
    {
        t.push(0);
        z = z + 1;
    }
    let mut d: usize = 0;
    while d < dd
        invariant
            d <= dd,
            n == raw@.len(),
            n == ex * dd,
            t@.len() == n,
            forall|c: int, e: int|
                0 <= c < d && 0 <= e < ex ==> #[trigger] t@[e * dd + c] == raw@[c * ex + e],
        decreases dd - d,
    {
        let mut e: usize = 0;
        while e < ex
            invariant
                d < dd,
                e <= ex,
                n == raw@.len(),
                n == ex * dd,
                t@.len() == n,
                forall|c: int, f: int|
                    0 <= c < d && 0 <= f < ex ==> #[trigger] t@[f * dd + c] == raw@[c * ex + f],
                forall|f: int| 0 <= f < e ==> #[trigger] t@[f * dd + d] == raw@[d * ex + f],
            decreases ex - e,
        {
            proof {
                lemma_cell(e as int, d as int, ex as int, dd as int);
                assert(0 <= e * dd) by (nonlinear_arith);
                assert(0 <= d * ex) by (nonlinear_arith);
            }
            let ghost was = t@;
            t.set(e * dd + d, raw[d * ex + e]);
            proof {
                assert forall|c: int, f: int| 0 <= c < d && 0 <= f < ex implies #[trigger] t@[f * dd
                    + c] == raw@[c * ex + f] by {
                    lemma_cell(f, c, ex as int, dd as int);
                    if f * dd + c == e * dd + d {
                        lemma_cells_differ(f, c, e as int, d as int, dd as int);
                    }
                    assert(was[f * dd + c] == raw@[c * ex + f]);
                }
                assert forall|f: int| 0 <= f < e + 1 implies #[trigger] t@[f * dd + d] == raw@[d
                    * ex + f] by {
                    lemma_cell(f, d as int, ex as int, dd as int);
                    if f < e {
                        if f * dd + d == e * dd + d {
                            lemma_cells_differ(f, d as int, e as int, d as int, dd as int);
                        }
                        assert(was[f * dd + d] == raw@[d * ex + f]);
                    }
                }
            }
            e = e + 1;
        }
        d = d + 1;
    }
    Some(t)
}

/// Bytes of the whole draft layer's experts.
pub open spec fn draft_bytes(b: &ExpertBank) -> int {
    (b.gate.expert_bytes + b.up.expert_bytes + b.down.expert_bytes) * b.n_expert
}

/// Where one slab of the draft layer's experts lies in the file and in the
/// pool.
#[derive(Clone, Copy, Debug, PartialEq, Eq, Structural)]
pub struct Resident {
    pub offset: u64,
    pub len: u64,
    pub at: u64,
}

/// The three tensors of a bank in pool order.
pub open spec fn bank_tensor(b: &ExpertBank, k: int) -> ExpertTensor {
    if k == 0 {
        b.gate
    } else if k == 1 {
        b.up
    } else {
        b.down
    }
}

/// Bytes before tensor `k` in the pool.
pub open spec fn draft_base(b: &ExpertBank, k: int) -> int
    decreases k,
{
    if k <= 0 {
        0
    } else {
        draft_base(b, k - 1) + bank_tensor(b, k - 1).expert_bytes * b.n_expert
    }
}

/// The slab of expert `e` of tensor `k`.
pub open spec fn resident_slab(b: &ExpertBank, k: int, e: int) -> Resident {
    let t = bank_tensor(b, k);
    Resident {
        offset: tensors::slab_offset(t, e) as u64,
        len: t.expert_bytes,
        at: (draft_base(b, k) + e * t.expert_bytes) as u64,
    }
}

/// Where every slab of the draft layer goes: tensor by tensor, expert by
/// expert, back to back.
pub fn draft_layout(b: &ExpertBank) -> (v: Vec<Resident>)
    requires
        b.wf(),
        draft_bytes(b) + SLAB_SLACK <= usize::MAX,
    ensures
        v@.len() == 3 * b.n_expert,
        forall|k: int, e: int|
            0 <= k < 3 && 0 <= e < b.n_expert ==> v@[#[trigger] (k * b.n_expert + e)]
                == resident_slab(b, k, e),
{
    let mut v: Vec<Resident> = Vec::new();
    let mut cursor: u64 = 0;
    let mut k: usize = 0;
    let ghost ne = b.n_expert as int;
    proof {
        reveal_with_fuel(draft_base, 4);
        assert((b.gate.expert_bytes + b.up.expert_bytes + b.down.expert_bytes) * ne
            == b.gate.expert_bytes * ne + b.up.expert_bytes * ne + b.down.expert_bytes * ne)
            by (nonlinear_arith);
        assert(0 <= b.gate.expert_bytes * ne) by (nonlinear_arith)
            requires
                0 <= ne,
        ;
        assert(0 <= b.up.expert_bytes * ne) by (nonlinear_arith)
            requires
                0 <= ne,
        ;
        assert(0 <= b.down.expert_bytes * ne) by (nonlinear_arith)
            requires
                0 <= ne,
        ;
    }
    while k < 3
        invariant
            k <= 3,
            ne == b.n_expert,
            b.wf(),
            cursor == draft_base(b, k as int),
            draft_base(b, 1) <= u64::MAX,
            draft_base(b, 2) <= u64::MAX,
            draft_base(b, 3) <= u64::MAX,
            v@.len() == k * ne,
            forall|j: int, e: int|
                0 <= j < k && 0 <= e < ne ==> v@[#[trigger] (j * ne + e)] == resident_slab(b, j, e),
        decreases 3 - k,
    {
        let t: ExpertTensor = if k == 0 {
            b.gate
        } else if k == 1 {
            b.up
        } else {
            b.down
        };
        let ghost base = cursor as int;
        let ghost k0 = k as int;
        let mut e: u32 = 0;
        proof {
            assert(0 * t.expert_bytes == 0);
            assert(draft_base(b, k0 + 1) == base + t.expert_bytes * ne);
        }
        while e < b.n_expert
            invariant
                e <= b.n_expert,
                ne == b.n_expert,
                k0 == k,
                k < 3,
                b.wf(),
                t == bank_tensor(b, k0),
                base == draft_base(b, k0),
                cursor == base + e * t.expert_bytes,
                base + t.expert_bytes * ne <= u64::MAX,
                v@.len() == k0 * ne + e,
                forall|j: int, x: int|
                    0 <= j < k0 && 0 <= x < ne ==> v@[#[trigger] (j * ne + x)] == resident_slab(
                        b,
                        j,
                        x,
                    ),
                forall|x: int|
                    0 <= x < e ==> v@[#[trigger] (k0 * ne + x)] == resident_slab(b, k0, x),
            decreases b.n_expert - e,
        {
            proof {
                tensors::lemma_slab_bound(t, e as int, b.n_expert as nat);
                assert((e + 1) * t.expert_bytes == e * t.expert_bytes + t.expert_bytes)
                    by (nonlinear_arith);
                assert((e + 1) * t.expert_bytes <= t.expert_bytes * ne) by (nonlinear_arith)
                    requires
                        e + 1 <= ne,
                        0 <= t.expert_bytes,
                ;
            }
            let r = t.slab(e as u64);
            let ghost was = v@;
            v.push(Resident { offset: r.offset, len: r.len, at: cursor });
            proof {
                assert forall|j: int, x: int| 0 <= j < k0 && 0 <= x < ne implies v@[#[trigger] (j
                    * ne + x)] == resident_slab(b, j, x) by {
                    assert(0 <= j * ne + x < k0 * ne) by (nonlinear_arith)
                        requires
                            0 <= j < k0,
                            0 <= x < ne,
                    ;
                    assert(was[j * ne + x] == resident_slab(b, j, x));
                }
                assert forall|x: int| 0 <= x < e + 1 implies v@[#[trigger] (k0 * ne + x)]
                    == resident_slab(b, k0, x) by {
                    assert(0 <= k0 * ne) by (nonlinear_arith)
                        requires
                            0 <= k0,
                            0 <= ne,
                    ;
                    if x < e {
                        assert(was[k0 * ne + x] == resident_slab(b, k0, x));
                    }
                }
            }
            cursor = cursor + t.expert_bytes;
            e = e + 1;
        }
        proof {
            assert(ne * t.expert_bytes == t.expert_bytes * ne) by (nonlinear_arith);
            assert((k0 + 1) * ne == k0 * ne + ne) by (nonlinear_arith);
        }
        k = k + 1;
    }
    v
}

/// Characters before the first dot.
pub open spec fn before_dot(s: Seq<char>, n: int) -> Seq<char>
    decreases s.len() - n,
{
    if 0 <= n < s.len() && s[n] != '.' {
        before_dot(s, n + 1)
    } else {
        s.take(n)
    }
}

/// The layer a tensor name belongs to.
pub open spec fn layer_of(name: Seq<char>) -> Option<nat> {
    if text::begins_with(name, "blk."@) {
        text::number_upto(before_dot(name.skip("blk."@.len() as int), 0), usize::MAX as nat)
    } else {
        None
    }
}

/// An unread tensor that should have been read: not one of the blocks behind
/// the layers that run.
pub open spec fn is_skipped(name: Seq<char>, n_exec: u32) -> bool {
    match layer_of(name) {
        Some(il) => il < n_exec,
        None => true,
    }
}

fn skips(name: &str, n_exec: u32) -> (r: bool)
    ensures
        r == is_skipped(name@, n_exec),
{
    if !text::has_prefix(name, "blk.") {
        return true;
    }
    let v = text::chars_of(name);
    proof {
        reveal_strlit("blk.");
    }
    let ghost rest = name@.skip(4);
    let mut hi: usize = 4;
    while hi < v.len() && v[hi] != '.'
        invariant
            4 <= hi <= v@.len(),
            v@ == name@,
            rest == name@.skip(4),
            before_dot(rest, 0) == before_dot(rest, hi - 4),
        decreases v@.len() - hi,
    {
        hi = hi + 1;
    }
    assert(rest.take(hi - 4) =~= v@.subrange(4, hi as int));
    match text::parse_span(&v, 4, hi) {
        Some(il) => if il <= usize::MAX as u64 {
            il < n_exec as u64
        } else {
            true
        },
        None => true,
    }
}

/// The names among the first `n` that should have been read.
pub open spec fn skipped_in(names: Seq<String>, n_exec: u32, n: int) -> Seq<Seq<char>>
    decreases n,
{
    if n <= 0 {
        Seq::empty()
    } else if is_skipped(names[n - 1]@, n_exec) {
        skipped_in(names, n_exec, n - 1).push(names[n - 1]@)
    } else {
        skipped_in(names, n_exec, n - 1)
    }
}

/// Names in one line.
pub open spec fn joined(names: Seq<Seq<char>>, n: int) -> Seq<char>
    decreases n,
{
    if n <= 0 {
        Seq::empty()
    } else if n == 1 {
        names[0]
    } else {
        joined(names, n - 1) + ", "@ + names[n - 1]
    }
}

/// Names shown in the notice.
pub const SHOWN: usize = 6;

/// The notice about tensors that nothing read.
pub open spec fn notice(names: Seq<Seq<char>>) -> Seq<char> {
    let shown = if names.len() < SHOWN { names.len() as int } else { SHOWN as int };
    "pulsar: WARNING "@ + text::digits(names.len())
        + " tensor(s) in this gguf were never read, so output may be silently wrong: "@ + joined(
        names,
        shown,
    ) + if names.len() > SHOWN {
        ", +"@ + text::digits((names.len() - SHOWN) as nat) + " more"@
    } else {
        Seq::empty()
    }
}

/// The notice about tensors that nothing read, where there is one to give.
pub fn skipped_notice(unread: &Vec<String>, n_exec: u32) -> (r: Option<String>)
    ensures
        ({
            let names = skipped_in(unread@, n_exec, unread@.len() as int);
            match r {
                Some(s) => names.len() > 0 && s@ == notice(names),
                None => names.len() == 0,
            }
        }),
{
    let mut list = String::new();
    let mut n: usize = 0;
    let mut i: usize = 0;
    while i < unread.len()
        invariant
            i <= unread@.len(),
            n <= i,
            n == skipped_in(unread@, n_exec, i as int).len(),
            list@ == joined(
                skipped_in(unread@, n_exec, i as int),
                if n < SHOWN {
                    n as int
                } else {
                    SHOWN as int
                },
            ),
        decreases unread@.len() - i,
    {
        let ghost names = skipped_in(unread@, n_exec, i as int);
        if skips(unread[i].as_str(), n_exec) {
            let ghost more = names.push(unread@[i as int]@);
            if n < SHOWN {
                if n > 0 {
                    list.append(", ");
                }
                list.append(unread[i].as_str());
                proof {
                    lemma_joined(names, more, n as int);
                    if n == 0 {
                        assert(list@ =~= unread@[i as int]@);
                    }
                }
            } else {
                proof {
                    lemma_joined(names, more, SHOWN as int);
                }
            }
            n = n + 1;
        }
        i = i + 1;
    }
    if n == 0 {
        return None;
    }
    let mut s = String::from_str("pulsar: WARNING ");
    text::push_decimal(&mut s, n as u64);
    s.append(" tensor(s) in this gguf were never read, so output may be silently wrong: ");
    s.append(list.as_str());
    if n > SHOWN {
        s.append(", +");
        text::push_decimal(&mut s, (n - SHOWN) as u64);
        s.append(" more");
    }
    assert(s@ =~= notice(skipped_in(unread@, n_exec, unread@.len() as int)));
    Some(s)
}

proof fn lemma_joined(a: Seq<Seq<char>>, b: Seq<Seq<char>>, n: int)
    requires
        n <= a.len() <= b.len(),
        forall|i: int| 0 <= i < a.len() ==> a[i] == b[i],
    ensures
        joined(a, n) == joined(b, n),
    decreases n,
{
    if n > 1 {
        lemma_joined(a, b, n - 1);
    }
}

/// The tensor that the head reads: its own, or the embedding.
pub fn head_tensor(h: &Header) -> (n: &'static str)
    ensures
        n@ == if h.tensor_named("output.weight"@) is Some {
            "output.weight"@
        } else {
            "token_embd.weight"@
        },
{
    match h.tensor("output.weight") {
        Some(_) => "output.weight",
        None => "token_embd.weight",
    }
}

/// The embedding table stays in pinned host memory: two families read one row
/// per token, and need the card for more.
pub fn embeds_from_host(f: Family) -> (r: bool)
    ensures
        r == (f == Family::Mla || f == Family::Dsv4),
{
    f == Family::Mla || f == Family::Dsv4
}

/// The rotation's frequencies are divided by a table of the file.
pub fn has_rope_factors(h: &Header, arch: Arch) -> (r: bool)
    ensures
        r == (arch == Arch::Gemma4 && h.tensor_named("rope_freqs.weight"@) is Some),
{
    arch == Arch::Gemma4 && h.tensor("rope_freqs.weight").is_some()
}

/// Embedded tokens are normed.
pub fn norms_tokens(arch: Arch) -> (r: bool)
    ensures
        r == (arch == Arch::Inkling),
{
    arch == Arch::Inkling
}

/// Embedded tokens are scaled by the root of their width.
pub fn scales_tokens(arch: Arch) -> (r: bool)
    ensures
        r == (arch == Arch::Gemma4),
{
    arch == Arch::Gemma4
}

/// Reach of a layer's relative positions: windowed layers have their own.
pub fn rel_extent(s: &Shape, window: u32) -> (n: u32)
    ensures
        n == if window != 0 {
            s.rel_ext_swa
        } else {
            s.rel_ext
        },
{
    if window != 0 {
        s.rel_ext_swa
    } else {
        s.rel_ext
    }
}

/// What becomes of the extra layer.
#[derive(Clone, Copy, Debug, PartialEq, Eq, Structural)]
pub enum Extra {
    Off,
    /// It is wanted, and the file has none.
    Missing,
    Load,
}

/// The extra layer is loaded when it is asked for and the file has one.
pub fn extra_layer(h: &Header, s: &Shape, setting: Option<&str>) -> (r: Extra)
    ensures
        r == if setting is None || setting->0@ != "1"@ {
            Extra::Off
        } else if h.tensor_named(
            header::blk_name(s.n_exec_layer as nat, "nextn.eh_proj.weight"@),
        ) is None {
            Extra::Missing
        } else {
            Extra::Load
        },
{
    match setting {
        None => Extra::Off,
        Some(v) => {
            if !text::same(v, "1") {
                return Extra::Off;
            }
            let name = header::blk(s.n_exec_layer as u64, "nextn.eh_proj.weight");
            match h.tensor(name.as_str()) {
                Some(_) => Extra::Load,
                None => Extra::Missing,
            }
        },
    }
}

} // verus!
