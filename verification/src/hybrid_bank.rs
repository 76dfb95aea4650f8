//! What the buffers of a hybrid's card hold, and what its layers run with.

use vstd::prelude::*;

use crate::graph::{Buf, Part};
use crate::hybrid;
use crate::hybrid::{GdnDims, HybridBuffer, HybridError, HybridFacts, HybridFfn, Mixer, T_MAX};
use crate::shape::Shape;

verus! {

/// The kind of a buffer that the table lists at `k`, as elements.
pub open spec fn listed_elems(s: &Shape, d: &GdnDims, b: Buf, n: int) -> bool {
    exists|k: int|
        0 <= k < hybrid::bank_table().len() && (#[trigger] hybrid::bank_table()[k]).0 == b && hybrid::hybrid_elems(
            s,
            d,
            hybrid::bank_table()[k].1,
        ) == n
}

proof fn lemma_listed(s: &Shape, d: &GdnDims, k: int)
    requires
        0 <= k < hybrid::bank_table().len(),
    ensures
        listed_elems(s, d, hybrid::bank_table()[k].0, hybrid::hybrid_elems(s, d, hybrid::bank_table()[k].1)),
{
    assert(hybrid::bank_table()[k].0 == hybrid::bank_table()[k].0);
}

/// The buffers of a card hold what the launches of the delta layers write,
/// for as many rows as a chunk has: projected and convolved rows, queries
/// and keys, values and gates, a coefficient for each value head, and one
/// row of both.
pub proof fn bank_holds_the_delta_rows(s: &Shape, d: &GdnDims)
    ensures
        listed_elems(s, d, Buf::Half(false, Part::Qkv), T_MAX * d.conv),
        listed_elems(s, d, Buf::Half(false, Part::ConvOut), T_MAX * d.conv),
        listed_elems(s, d, Buf::Half(false, Part::Gq), T_MAX * d.key),
        listed_elems(s, d, Buf::Half(false, Part::Gk), T_MAX * d.key),
        listed_elems(s, d, Buf::Half(false, Part::Gv), T_MAX * d.value),
        listed_elems(s, d, Buf::Half(false, Part::Z), T_MAX * d.value),
        listed_elems(s, d, Buf::Half(false, Part::Delta), T_MAX * d.value),
        listed_elems(s, d, Buf::Half(false, Part::Mixed), T_MAX * d.value),
        listed_elems(s, d, Buf::Half(false, Part::Decay), T_MAX * d.v_heads),
        listed_elems(s, d, Buf::Half(false, Part::Beta), T_MAX * d.v_heads),
        listed_elems(s, d, Buf::Half(false, Part::Packed), 2 * d.v_heads),
        hybrid::hybrid_elems(s, d, HybridBuffer::State) == d.v_heads * s.ssm_state * s.ssm_state,
        s.ssm_conv_k >= 1 ==> hybrid::hybrid_elems(s, d, HybridBuffer::Window) == (s.ssm_conv_k - 1) * d.conv,
        hybrid::hybrid_elems(s, d, HybridBuffer::Scalar) == T_MAX,
{
    assert forall|k: int| 0 <= k < hybrid::bank_table().len() implies listed_elems(
        s,
        d,
        (#[trigger] hybrid::bank_table()[k]).0,
        hybrid::hybrid_elems(s, d, hybrid::bank_table()[k].1),
    ) by {
        lemma_listed(s, d, k);
    }
    let t = hybrid::bank_table();
    assert(t[18].0 == Buf::Half(false, Part::Qkv) && t[19].0 == Buf::Half(false, Part::ConvOut)
        && t[20].0 == Buf::Half(false, Part::Z) && t[21].0 == Buf::Half(false, Part::Gq) && t[22].0
        == Buf::Half(false, Part::Gk) && t[23].0 == Buf::Half(false, Part::Gv) && t[24].0
        == Buf::Half(false, Part::Decay) && t[25].0 == Buf::Half(false, Part::Beta) && t[26].0
        == Buf::Half(false, Part::Packed) && t[27].0 == Buf::Half(false, Part::Delta) && t[28].0
        == Buf::Half(false, Part::Mixed));
}

/// The buffers of a card hold what the launches of the attention layers and
/// the feed-forwards write, for as many rows as a chunk has.
pub proof fn bank_holds_the_attention_rows(s: &Shape, d: &GdnDims)
    ensures
        ({
            let wide = if s.n_ff_exp >= s.n_ff_dense {
                s.n_ff_exp
            } else {
                s.n_ff_dense
            };
            let heads = s.n_head * s.head_dim;
            let pairs = s.n_head_kv * s.head_dim;
            &&& listed_elems(s, d, Buf::Half(false, Part::QueryGate), T_MAX * (2 * heads))
            &&& listed_elems(s, d, Buf::Half(false, Part::Q), T_MAX * heads)
            &&& listed_elems(s, d, Buf::Half(false, Part::Gate), T_MAX * heads)
            &&& listed_elems(s, d, Buf::Half(false, Part::RotQ), T_MAX * heads)
            &&& listed_elems(s, d, Buf::Half(false, Part::Heads), T_MAX * heads)
            &&& listed_elems(s, d, Buf::Half(false, Part::K), T_MAX * pairs)
            &&& listed_elems(s, d, Buf::Half(false, Part::V), T_MAX * pairs)
            &&& listed_elems(s, d, Buf::Half(false, Part::RotK), T_MAX * pairs)
            &&& listed_elems(s, d, Buf::Half(false, Part::In), T_MAX * s.n_embd)
            &&& listed_elems(s, d, Buf::Half(false, Part::Out), T_MAX * s.n_embd)
            &&& listed_elems(s, d, Buf::Half(false, Part::FfnOut), T_MAX * s.n_embd)
            &&& listed_elems(s, d, Buf::Half(false, Part::GateAct), T_MAX * wide)
            &&& listed_elems(s, d, Buf::Half(false, Part::UpAct), T_MAX * wide)
            &&& listed_elems(s, d, Buf::Half(false, Part::Mid), T_MAX * wide)
            &&& listed_elems(s, d, Buf::Cur, T_MAX * s.n_embd)
            &&& listed_elems(s, d, Buf::AfterAttn, T_MAX * s.n_embd)
            &&& listed_elems(s, d, Buf::FfnOut, T_MAX * s.n_embd)
            &&& listed_elems(s, d, Buf::GateAct, T_MAX * wide)
            &&& listed_elems(s, d, Buf::UpAct, T_MAX * wide)
            &&& listed_elems(s, d, Buf::FfnMid, T_MAX * wide)
            &&& hybrid::block_width(s, d, false) == s.n_embd
            &&& hybrid::block_width(s, d, true) >= wide && hybrid::block_width(s, d, true) >= heads && hybrid::block_width(
                s,
                d,
                true,
            ) >= d.value
            &&& hybrid::block_width(s, d, true) == wide || hybrid::block_width(s, d, true) == heads || hybrid::block_width(
                s,
                d,
                true,
            ) == d.value
        }),
{
    assert forall|k: int| 0 <= k < hybrid::bank_table().len() implies listed_elems(
        s,
        d,
        (#[trigger] hybrid::bank_table()[k]).0,
        hybrid::hybrid_elems(s, d, hybrid::bank_table()[k].1),
    ) by {
        lemma_listed(s, d, k);
    }
    let t = hybrid::bank_table();
    assert(t[0].0 == Buf::Cur && t[1].0 == Buf::AfterAttn && t[2].0 == Buf::FfnOut && t[3].0
        == Buf::GateAct && t[4].0 == Buf::UpAct && t[5].0 == Buf::FfnMid && t[6].0 == Buf::Half(
        false,
        Part::In,
    ) && t[7].0 == Buf::Half(false, Part::Out) && t[8].0 == Buf::Half(false, Part::Q) && t[9].0
        == Buf::Half(false, Part::K) && t[10].0 == Buf::Half(false, Part::V) && t[11].0 == Buf::Half(
        false,
        Part::RotQ,
    ) && t[12].0 == Buf::Half(false, Part::RotK) && t[13].0 == Buf::Half(false, Part::Heads)
        && t[14].0 == Buf::Half(false, Part::GateAct) && t[15].0 == Buf::Half(false, Part::UpAct)
        && t[16].0 == Buf::Half(false, Part::Mid) && t[17].0 == Buf::Half(false, Part::FfnOut)
        && t[29].0 == Buf::Half(false, Part::QueryGate) && t[30].0 == Buf::Half(false, Part::Gate));
}

/// A layer mixes by the delta rule where it has one, by attention where it
/// has that alone, and cannot run with neither. A half of it takes half of
/// the heads, reads its position on the card only over an exact cache of a
/// short context, and is not rotated.
pub proof fn layers_mix_with_what_they_have(s: &Shape, f: HybridFacts)
    ensures
        ({
            let r = hybrid::layer_graph(s, f);
            let short = f.ctx <= 4096 && f.exact_kv;
            &&& !f.has_gdn && !f.has_attn ==> r == Err::<(Mixer, HybridFfn), HybridError>(
                HybridError::NoMixer,
            )
            &&& (f.has_gdn || f.has_attn) && !f.resident_ffn && !f.has_experts ==> r == Err::<
                (Mixer, HybridFfn),
                HybridError,
            >(HybridError::NoFfn)
            &&& (f.has_gdn || f.has_attn) && (f.resident_ffn || f.has_experts) ==> r is Ok
            &&& r is Ok && f.has_gdn ==> (r->Ok_0).0 == (Mixer::Gdn {
                halved: f.half_mixer,
                packed: f.half_mixer && f.t == 1,
            })
            &&& r is Ok && !f.has_gdn && !f.half_mixer ==> (r->Ok_0).0 == (Mixer::Attn {
                halved: false,
                n_head: s.n_head,
                n_head_kv: s.n_head_kv,
                device_pos: false,
                rotate: f.rotate,
            })
            &&& r is Ok && !f.has_gdn && f.half_mixer ==> (r->Ok_0).0 == (Mixer::Attn {
                halved: true,
                n_head: s.n_head / 2,
                n_head_kv: s.n_head_kv / 2,
                device_pos: short,
                rotate: false,
            })
            &&& r is Ok && f.resident_ffn ==> ((r->Ok_0).1 == HybridFfn::Halved <==> f.half_ffn)
                && ((r->Ok_0).1 == HybridFfn::Dense <==> !f.half_ffn)
            &&& r is Ok && !f.resident_ffn ==> (r->Ok_0).1 == (HybridFfn::Experts {
                shared: f.shared_expert,
            })
        }),
{
}

} // verus!
