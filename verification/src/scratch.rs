//! Sizes of the working buffers of a run.

use vstd::prelude::*;

use crate::shape::{Family, Shape};

verus! {

/// Working buffers. Those of one size share a name.
#[derive(Clone, Copy, Debug, PartialEq, Eq, Structural)]
pub enum Buffer {
    /// Token ids.
    Tokens,
    /// One residual row per token.
    Rows,
    /// Residual rows of a verification pass.
    LastRows,
    /// Query heads.
    Query,
    /// Attention output before its projection.
    Heads,
    /// Low-rank query.
    QueryRank,
    /// Latent and rotary part as projected.
    KvRaw,
    /// Latent part, normed.
    KvNorm,
    /// Query heads in latent space.
    QkLow,
    /// Key heads, or value heads.
    KeyHeads,
    /// Feed-forward activations.
    FfnAct,
    RouterLogits,
    RouterSelected,
    RouterWeights,
    /// Activations of every selected expert.
    ExpertMid,
    /// Quantized residual rows.
    RowBlocks,
    /// Quantized expert activations.
    MidBlocks,
    /// One reference record per selected expert.
    ExpertRefs,
    Logits,
    /// Predicted router logits of one token.
    PredLogits,
    PredSelected,
    PredWeights,
    /// Output-gate logits, one per query head.
    GateLogits,
    /// Relative-position query.
    RelQuery,
    /// Relative-position bias.
    RelBias,
    /// Short-convolution output.
    ShortConv,
    IdxKey,
    IdxQuery,
    /// `IdxQuery` in half floats.
    IdxQueryHalf,
    IdxWeights,
    IdxScores,
    /// Selected key rows per token.
    KeySelection,
    /// One reference record per expert.
    GroupRefs,
    GroupStarts,
    GroupPairs,
    /// Embedding and hidden row side by side.
    DraftInput,
    /// Quantized rows in front of the output head.
    HeadBlocks,
    /// Rotation matrix.
    Rotation,
    /// Rotated key heads.
    RotatedKeys,
    /// Rotated query heads.
    RotatedQuery,
}

/// What the sizes depend on.
#[derive(Clone, Copy, Debug)]
pub struct ScratchDims {
    pub shape: Shape,
    /// Tokens of one batch.
    pub batch: u32,
    pub ctx: u32,
    /// Rows of one verification pass.
    pub spec_rows: u32,
    /// Elements of one activation block.
    pub block_elems: u32,
    /// Bytes of one activation block.
    pub block_bytes: u32,
    /// Bytes of one expert reference record.
    pub ref_bytes: u32,
}

pub open spec fn max32(a: u32, b: u32) -> u32 {
    if a >= b {
        a
    } else {
        b
    }
}

fn max_of(a: u32, b: u32) -> (m: u32)
    ensures
        m == max32(a, b),
{
    if a >= b {
        a
    } else {
        b
    }
}

pub open spec fn wider(a: int, b: int) -> int {
    if a >= b {
        a
    } else {
        b
    }
}

/// Blocks that hold `n` elements.
pub open spec fn blocks_for(n: int, per: int) -> int {
    (n + per - 1) / per
}

impl ScratchDims {
    /// Rows of a buffer, elements of one row, and bytes of one element.
    pub open spec fn extent(&self, b: Buffer) -> (u32, int, u32) {
        let s = self.shape;
        let mb = self.batch;
        match b {
            Buffer::Tokens => (mb, 1, 4),
            Buffer::Rows => (mb, s.n_embd as int, 4),
            Buffer::LastRows => (self.spec_rows, s.n_embd as int, 4),
            Buffer::Query => (
                mb,
                s.n_head * wider(s.head_dim as int, s.qk_nope + s.qk_rope),
                4,
            ),
            Buffer::Heads => (mb, wider(s.out_width(), s.n_head * s.head_dim), 4),
            Buffer::QueryRank => (mb, wider(s.n_lora_q as int, 1), 4),
            Buffer::KvRaw => (mb, wider(s.n_kv_lora + s.qk_rope, 1), 4),
            Buffer::KvNorm => (mb, wider(s.n_kv_lora as int, 1), 4),
            Buffer::QkLow => (mb, s.n_head * wider(s.n_kv_lora as int, 1), 4),
            Buffer::KeyHeads | Buffer::RotatedKeys => (mb, s.n_head_kv * s.head_dim, 4),
            Buffer::FfnAct => (mb, max32(s.n_ff_dense, s.n_ff_exp) as int, 4),
            Buffer::RouterLogits => (mb, s.n_expert + s.n_shexp_sink, 4),
            Buffer::RouterSelected | Buffer::RouterWeights | Buffer::GroupPairs => (
                mb,
                s.n_expert_used as int,
                4,
            ),
            Buffer::ExpertMid => (mb, s.n_expert_used * s.n_ff_exp, 4),
            Buffer::RowBlocks => (
                mb,
                blocks_for(s.n_embd as int, self.block_elems as int),
                self.block_bytes,
            ),
            Buffer::MidBlocks => (
                mb,
                s.n_expert_used * blocks_for(s.n_ff_exp as int, self.block_elems as int),
                self.block_bytes,
            ),
            Buffer::ExpertRefs => (mb, s.n_expert_used as int, self.ref_bytes),
            Buffer::Logits => (self.spec_rows, s.n_vocab as int, 4),
            Buffer::PredLogits => (1, s.n_expert + s.n_shexp_sink, 4),
            Buffer::PredSelected | Buffer::PredWeights => (1, s.n_expert_used as int, 4),
            Buffer::GateLogits => (mb, s.n_head as int, 4),
            Buffer::RelQuery => (mb, s.n_head * s.d_rel, 4),
            Buffer::RelBias => (mb, s.n_head * max32(s.rel_ext, s.rel_ext_swa), 4),
            Buffer::ShortConv => (mb, s.n_embd as int, 4),
            Buffer::IdxKey => (mb, s.n_idx_dim as int, 4),
            Buffer::IdxQuery => (mb, s.n_idx_head * s.n_idx_dim, 4),
            Buffer::IdxQueryHalf => (mb, s.n_idx_head * s.n_idx_dim, 2),
            Buffer::IdxWeights => (mb, s.n_idx_head as int, 4),
            Buffer::IdxScores | Buffer::KeySelection => (mb, self.ctx as int, 4),
            Buffer::GroupRefs => (1, wider(s.n_expert as int, 1), self.ref_bytes),
            Buffer::GroupStarts => (1, s.n_expert + 1, 4),
            Buffer::DraftInput => (mb, 2 * s.n_embd, 4),
            Buffer::HeadBlocks => (
                1,
                self.spec_rows * s.n_embd / self.block_elems as int,
                self.block_bytes,
            ),
            Buffer::Rotation => (s.head_dim, s.head_dim as int, 4),
            Buffer::RotatedQuery => (mb, s.n_head * s.head_dim, 4),
        }
    }

    /// Bytes of a buffer.
    pub open spec fn size(&self, b: Buffer) -> int {
        let (rows, width, unit) = self.extent(b);
        rows * width * unit
    }

    fn row_len(&self, b: Buffer) -> (r: (u32, u128, u32))
        requires
            self.block_elems > 0,
        ensures
            r.0 == self.extent(b).0,
            r.1 == self.extent(b).1,
            r.2 == self.extent(b).2,
            r.1 <= 0x2_0000_0000_0000_0000,
    {
        let s = &self.shape;
        let mb: u32 = self.batch;
        match b {
            Buffer::Tokens => (mb, 1, 4),
            Buffer::Rows => (mb, s.n_embd as u128, 4),
            Buffer::LastRows => (self.spec_rows, s.n_embd as u128, 4),
            Buffer::Query => {
                let qk: u64 = s.qk_nope as u64 + s.qk_rope as u64;
                let w: u64 = if s.head_dim as u64 >= qk {
                    s.head_dim as u64
                } else {
                    qk
                };
                (mb, wide(s.n_head, w), 4)
            },
            Buffer::Heads => {
                let plain: u128 = wide(s.n_head, s.head_dim as u64);
                let out: u128 = match s.family {
                    Family::Gqa | Family::Dsv4 | Family::Qwen35 => plain,
                    Family::Mla | Family::K3 => wide(s.n_head, s.value_mla as u64),
                };
                (
                    mb,
                    if out >= plain {
                        out
                    } else {
                        plain
                    },
                    4,
                )
            },
            Buffer::QueryRank => (mb, max_of(s.n_lora_q, 1) as u128, 4),
            Buffer::KvRaw => {
                let w: u128 = s.n_kv_lora as u128 + s.qk_rope as u128;
                (
                    mb,
                    if w >= 1 {
                        w
                    } else {
                        1
                    },
                    4,
                )
            },
            Buffer::KvNorm => (mb, max_of(s.n_kv_lora, 1) as u128, 4),
            Buffer::QkLow => (mb, wide(s.n_head, max_of(s.n_kv_lora, 1) as u64), 4),
            Buffer::KeyHeads | Buffer::RotatedKeys => (mb, wide(s.n_head_kv, s.head_dim as u64), 4),
            Buffer::FfnAct => (mb, max_of(s.n_ff_dense, s.n_ff_exp) as u128, 4),
            Buffer::RouterLogits => (mb, s.n_expert as u128 + s.n_shexp_sink as u128, 4),
            Buffer::RouterSelected | Buffer::RouterWeights | Buffer::GroupPairs => (
                mb,
                s.n_expert_used as u128,
                4,
            ),
            Buffer::ExpertMid => (mb, wide(s.n_expert_used, s.n_ff_exp as u64), 4),
            Buffer::RowBlocks => (mb, blocks(s.n_embd, self.block_elems) as u128, self.block_bytes),
            Buffer::MidBlocks => (
                mb,
                wide(s.n_expert_used, blocks(s.n_ff_exp, self.block_elems)),
                self.block_bytes,
            ),
            Buffer::ExpertRefs => (mb, s.n_expert_used as u128, self.ref_bytes),
            Buffer::Logits => (self.spec_rows, s.n_vocab as u128, 4),
            Buffer::PredLogits => (1, s.n_expert as u128 + s.n_shexp_sink as u128, 4),
            Buffer::PredSelected | Buffer::PredWeights => (1, s.n_expert_used as u128, 4),
            Buffer::GateLogits => (mb, s.n_head as u128, 4),
            Buffer::RelQuery => (mb, wide(s.n_head, s.d_rel as u64), 4),
            Buffer::RelBias => (
                mb,
                wide(s.n_head, max_of(s.rel_ext, s.rel_ext_swa) as u64),
                4,
            ),
            Buffer::ShortConv => (mb, s.n_embd as u128, 4),
            Buffer::IdxKey => (mb, s.n_idx_dim as u128, 4),
            Buffer::IdxQuery => (mb, wide(s.n_idx_head, s.n_idx_dim as u64), 4),
            Buffer::IdxQueryHalf => (mb, wide(s.n_idx_head, s.n_idx_dim as u64), 2),
            Buffer::IdxWeights => (mb, s.n_idx_head as u128, 4),
            Buffer::IdxScores | Buffer::KeySelection => (mb, self.ctx as u128, 4),
            Buffer::GroupRefs => (1, max_of(s.n_expert, 1) as u128, self.ref_bytes),
            Buffer::GroupStarts => (1, s.n_expert as u128 + 1, 4),
            Buffer::DraftInput => (mb, 2 * s.n_embd as u128, 4),
            Buffer::HeadBlocks => (
                1,
                wide(self.spec_rows, s.n_embd as u64) / self.block_elems as u128,
                self.block_bytes,
            ),
            Buffer::Rotation => (s.head_dim, s.head_dim as u128, 4),
            Buffer::RotatedQuery => (mb, wide(s.n_head, s.head_dim as u64), 4),
        }
    }

    /// Bytes of a buffer; `None` when they have no size in memory.
    pub fn bytes(&self, b: Buffer) -> (r: Option<usize>)
        requires
            self.block_elems > 0,
        ensures
            match r {
                Some(n) => n == self.size(b),
                None => self.size(b) > usize::MAX,
            },
    {
        let (rows, width, unit): (u32, u128, u32) = self.row_len(b);
        proof {
            assert(0 <= rows * width <= 0x2_0000_0000_0000_0000_0000_0000) by (nonlinear_arith)
                requires
                    0 <= rows <= 0xffff_ffff,
                    0 <= width <= 0x2_0000_0000_0000_0000,
            ;
        }
        match (rows as u128 * width).checked_mul(unit as u128) {
            Some(n) => if n <= usize::MAX as u128 {
                Some(n as usize)
            } else {
                None
            },
            None => None,
        }
    }
}

fn wide(a: u32, b: u64) -> (r: u128)
    requires
        b <= 0x2_0000_0000,
    ensures
        r == a * b,
        r <= 0x2_0000_0000_0000_0000,
{
    proof {
        assert(0 <= a * b <= 0x2_0000_0000_0000_0000) by (nonlinear_arith)
            requires
                0 <= a <= 0xffff_ffff,
                0 <= b <= 0x2_0000_0000,
        ;
    }
    a as u128 * b as u128
}

fn blocks(n: u32, per: u32) -> (r: u64)
    requires
        per > 0,
    ensures
        r == blocks_for(n as int, per as int),
        r <= 0x2_0000_0000,
{
    proof {
        assert((n + per - 1) / per as int <= 0x2_0000_0000) by (nonlinear_arith)
            requires
                0 < per,
                n + per - 1 <= 0x2_0000_0000,
        ;
    }
    (n as u64 + per as u64 - 1) / per as u64
}

/// Blocks for `n` elements hold them, and one block less would not.
pub proof fn blocks_hold_their_elements(n: int, per: int)
    requires
        0 <= n,
        0 < per,
    ensures
        n <= blocks_for(n, per) * per,
        n > 0 ==> (blocks_for(n, per) - 1) * per < n,
        n == 0 ==> blocks_for(n, per) == 0,
{
    let q = blocks_for(n, per);
    let m = n + per - 1;
    assert(m == per * (m / per) + m % per && 0 <= m % per < per) by (nonlinear_arith)
        requires
            per > 0,
    ;
    assert(per * q == q * per) by (nonlinear_arith);
    assert((q - 1) * per == q * per - per) by (nonlinear_arith);
    if n == 0 {
        assert((per - 1) / per == 0) by (nonlinear_arith)
            requires
                per > 0,
        ;
    }
}

impl ScratchDims {
    /// So many numbers of four bytes for each token of a batch.
    pub open spec fn per_token(&self, n: int) -> int {
        self.batch * n * 4
    }

    /// What attention works in, each for every token of a batch: query heads
    /// of the wider of the two head widths, output heads of the wider of the
    /// two outputs, low ranks, latent rows, key heads, gates, relative
    /// positions, and what the selection of key rows scores.
    pub proof fn attention_buffers_hold_their_rows(&self)
        ensures
            ({
                let s = self.shape;
                let qk = s.qk_nope + s.qk_rope;
                &&& s.head_dim >= qk ==> self.size(Buffer::Query) == self.per_token(
                    s.n_head * s.head_dim,
                )
                &&& s.head_dim < qk ==> self.size(Buffer::Query) == self.per_token(s.n_head * qk)
                &&& self.extent(Buffer::Heads).1 >= s.n_head * s.head_dim
                &&& self.extent(Buffer::Heads).1 >= s.out_width()
                &&& self.extent(Buffer::Heads).1 == s.out_width() || self.extent(Buffer::Heads).1
                    == s.n_head * s.head_dim
                &&& self.size(Buffer::Heads) == self.per_token(self.extent(Buffer::Heads).1)
                &&& s.n_lora_q > 0 ==> self.size(Buffer::QueryRank) == self.per_token(
                    s.n_lora_q as int,
                )
                &&& s.n_kv_lora > 0 ==> self.size(Buffer::KvRaw) == self.per_token(
                    s.n_kv_lora + s.qk_rope,
                ) && self.size(Buffer::KvNorm) == self.per_token(s.n_kv_lora as int) && self.size(
                    Buffer::QkLow,
                ) == self.per_token(s.n_head * (s.n_kv_lora as int))
                &&& self.size(Buffer::KeyHeads) == self.per_token(s.n_head_kv * s.head_dim)
                &&& self.size(Buffer::RotatedKeys) == self.size(Buffer::KeyHeads)
                &&& self.size(Buffer::RotatedQuery) == self.per_token(s.n_head * s.head_dim)
                &&& self.size(Buffer::Rotation) == s.head_dim * (s.head_dim as int) * 4
                &&& self.size(Buffer::GateLogits) == self.per_token(s.n_head as int)
                &&& self.size(Buffer::RelQuery) == self.per_token(s.n_head * s.d_rel)
                &&& s.rel_ext >= s.rel_ext_swa ==> self.size(Buffer::RelBias) == self.per_token(
                    s.n_head * s.rel_ext,
                )
                &&& s.rel_ext < s.rel_ext_swa ==> self.size(Buffer::RelBias) == self.per_token(
                    s.n_head * s.rel_ext_swa,
                )
                &&& self.size(Buffer::IdxKey) == self.per_token(s.n_idx_dim as int)
                &&& self.size(Buffer::IdxQuery) == self.per_token(s.n_idx_head * s.n_idx_dim)
                &&& self.size(Buffer::IdxQueryHalf) * 2 == self.size(Buffer::IdxQuery)
                &&& self.size(Buffer::IdxWeights) == self.per_token(s.n_idx_head as int)
                &&& self.size(Buffer::IdxScores) == self.per_token(self.ctx as int)
                &&& self.size(Buffer::KeySelection) == self.size(Buffer::IdxScores)
            }),
    {
        let x = self.batch * (self.shape.n_idx_head * self.shape.n_idx_dim);
        assert(x * 2 * 2 == x * 4) by (nonlinear_arith);
    }

    /// What the stream and the feed-forward work in: rows of the stream,
    /// activations of the wider of the two feed-forwards, and what the
    /// router and the selected experts of every token give.
    pub proof fn stream_buffers_hold_their_rows(&self)
        ensures
            ({
                let s = self.shape;
                &&& self.size(Buffer::Tokens) == self.per_token(1)
                &&& self.size(Buffer::Rows) == self.per_token(s.n_embd as int)
                &&& self.size(Buffer::ShortConv) == self.size(Buffer::Rows)
                &&& self.size(Buffer::DraftInput) == 2 * self.size(Buffer::Rows)
                &&& s.n_ff_dense >= s.n_ff_exp ==> self.size(Buffer::FfnAct) == self.per_token(
                    s.n_ff_dense as int,
                )
                &&& s.n_ff_dense < s.n_ff_exp ==> self.size(Buffer::FfnAct) == self.per_token(
                    s.n_ff_exp as int,
                )
                &&& self.size(Buffer::RouterLogits) == self.per_token(s.n_expert + s.n_shexp_sink)
                &&& self.size(Buffer::RouterSelected) == self.per_token(s.n_expert_used as int)
                &&& self.size(Buffer::RouterWeights) == self.size(Buffer::RouterSelected)
                &&& self.size(Buffer::GroupPairs) == self.size(Buffer::RouterSelected)
                &&& self.size(Buffer::ExpertMid) == self.per_token(s.n_expert_used * s.n_ff_exp)
                &&& self.size(Buffer::RowBlocks) == self.batch * blocks_for(
                    s.n_embd as int,
                    self.block_elems as int,
                ) * self.block_bytes
                &&& self.size(Buffer::MidBlocks) == self.batch * (s.n_expert_used * blocks_for(
                    s.n_ff_exp as int,
                    self.block_elems as int,
                )) * self.block_bytes
                &&& self.size(Buffer::ExpertRefs) == self.batch * (s.n_expert_used as int)
                    * self.ref_bytes
                &&& s.n_expert > 0 ==> self.size(Buffer::GroupRefs) == 1 * (s.n_expert as int)
                    * self.ref_bytes
                &&& self.size(Buffer::GroupStarts) == 1 * (s.n_expert + 1) * 4
            }),
    {
        let n = self.batch as int;
        let e = self.shape.n_embd as int;
        assert(n * (2 * e) * 4 == 2 * (n * e * 4)) by (nonlinear_arith);
    }

    /// What a verification pass and a prediction work in: rows and logits of
    /// as many tokens as a pass verifies, and one token's router output.
    pub proof fn pass_buffers_hold_their_rows(&self)
        ensures
            ({
                let s = self.shape;
                &&& self.size(Buffer::LastRows) == self.spec_rows * (s.n_embd as int) * 4
                &&& self.size(Buffer::Logits) == self.spec_rows * (s.n_vocab as int) * 4
                &&& self.size(Buffer::HeadBlocks) == 1 * (self.spec_rows * s.n_embd
                    / self.block_elems as int) * self.block_bytes
                &&& self.size(Buffer::PredLogits) == 1 * (s.n_expert + s.n_shexp_sink) * 4
                &&& self.size(Buffer::PredSelected) == 1 * (s.n_expert_used as int) * 4
                &&& self.size(Buffer::PredWeights) == self.size(Buffer::PredSelected)
            }),
    {
    }
}

} // verus!
