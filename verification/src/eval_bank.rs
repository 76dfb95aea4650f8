//! The buffers a layer is evaluated in, of which a second card has its own.

use vstd::prelude::*;

verus! {

/// Evaluation buffers of one card, by handle: every activation and scratch
/// buffer that a layer touches.
pub struct EvalBank<T> {
    pub cur: T,
    pub normed: T,
    pub attn_out: T,
    pub after_attn: T,
    pub q: T,
    pub k: T,
    pub v: T,
    pub heads: T,
    pub xq: T,
    pub gate_act: T,
    pub up_act: T,
    pub ffn_mid: T,
    pub midq: T,
    pub ffn_out: T,
    pub qkv: T,
    pub conv_out: T,
    pub z: T,
    pub gq: T,
    pub gk: T,
    pub gv: T,
    pub small: T,
    pub g: T,
    pub beta: T,
    pub gb: T,
    pub gdn_o: T,
    pub gdn_tmp: T,
    pub qfull: T,
    pub gate: T,
}

/// The two banks after an exchange: the first in the second's place, and the
/// other way around.
pub open spec fn exchanged<T>(p: (EvalBank<T>, EvalBank<T>)) -> (EvalBank<T>, EvalBank<T>) {
    (p.1, p.0)
}

impl<T> EvalBank<T> {
    /// Exchange the buffers with those in use.
    pub fn swap(&mut self, live: &mut EvalBank<T>)
        ensures
            (*final(self), *final(live)) == exchanged((*old(self), *old(live))),
    {
        std::mem::swap(self, live);
    }
}

/// Exchanging twice restores the wiring.
pub proof fn swap_is_symmetric<T>(a: EvalBank<T>, b: EvalBank<T>)
    ensures
        exchanged(exchanged((a, b))) == (a, b),
{
}

} // verus!
