//! Decoding: which token comes next, what to forward, when to stop, and how
//! drafted tokens are accepted.

use vstd::prelude::*;

use crate::shape::Family;

verus! {

/// Tokens of one prefill chunk.
pub fn chunk_cap(speculates: bool, family: Family, max_batch: u32) -> (n: u32)
    ensures
        n == if speculates && family == Family::Qwen35 {
            16
        } else {
            max_batch
        },
{
    if speculates && family == Family::Qwen35 {
        16
    } else {
        max_batch
    }
}

/// End of the prefill chunk that starts at `at`.
pub fn chunk_end(len: usize, at: usize, cap: u32) -> (end: usize)
    requires
        at < len,
        cap > 0,
    ensures
        end == if at + cap <= len {
            at + cap
        } else {
            len as int
        },
        at < end <= len,
{
    if cap as u64 <= (len - at) as u64 {
        at + cap as usize
    } else {
        len
    }
}

/// What a prefill does next.
#[derive(Clone, Copy, Debug, PartialEq, Eq, Structural)]
pub enum Chunk {
    /// The whole prompt was run.
    Done,
    /// It is abandoned where it stands.
    Cancelled,
    /// Run the prompt up to here.
    Run(usize),
}

/// What a prefill does next that has run `at` of `len` tokens. Whether it is
/// cancelled matters as long as there is more to run.
pub fn next_chunk(len: usize, at: usize, cap: u32, cancelled: bool) -> (c: Chunk)
    requires
        at <= len,
        cap > 0,
    ensures
        c == if at == len {
            Chunk::Done
        } else if cancelled {
            Chunk::Cancelled
        } else {
            Chunk::Run(
                (if at + cap <= len {
                    at + cap
                } else {
                    len as int
                }) as usize,
            )
        },
        c matches Chunk::Run(end) ==> at < end <= len,
{
    if at == len {
        Chunk::Done
    } else if cancelled {
        Chunk::Cancelled
    } else {
        Chunk::Run(chunk_end(len, at, cap))
    }
}

/// How a greedy or sampled run speculates.
#[derive(Clone, Copy, Debug, PartialEq, Eq, Structural)]
pub enum Speculation {
    Off,
    /// Draft from repetitions in the context, this deep.
    Ngram(usize),
    /// Draft with the model's own draft layer.
    Layer,
}

/// How a run speculates: only greedy runs do; the draft layer goes before
/// repetitions.
pub fn speculation(has_mtp: bool, greedy: bool, ngram: Option<usize>) -> (s: Speculation)
    ensures
        s == if greedy && has_mtp {
            Speculation::Layer
        } else if greedy && ngram is Some {
            let d = ngram->0;
            Speculation::Ngram(if d < 1 { 1 } else if d > 15 { 15 } else { d })
        } else {
            Speculation::Off
        },
{
    if greedy && has_mtp {
        return Speculation::Layer;
    }
    if !greedy {
        return Speculation::Off;
    }
    match ngram {
        Some(d) => Speculation::Ngram(
            if d < 1 {
                1
            } else if d > 15 {
                15
            } else {
                d
            },
        ),
        None => Speculation::Off,
    }
}

/// What plain decoding would still emit: the tokens that `g` picks one after
/// another, up to a stop token, the end of the context, or the limit.
pub open spec fn stream(
    g: spec_fn(Seq<u32>) -> u32,
    stop: spec_fn(u32) -> bool,
    hist: Seq<u32>,
    pos: int,
    ctx: int,
    left: int,
) -> Seq<u32>
    decreases left,
{
    let t = g(hist);
    if left <= 0 || stop(t) || pos + 1 >= ctx {
        Seq::empty()
    } else {
        seq![t] + stream(g, stop, hist.push(t), pos + 1, ctx, left - 1)
    }
}

/// A run in progress: the tokens so far, and the pending one.
pub struct Run {
    /// Prompt and emitted tokens.
    pub hist: Vec<u32>,
    /// Length of the prompt.
    pub start: usize,
    /// Position of the pending token.
    pub pos: u32,
    /// The pending token: chosen, not yet emitted.
    pub next: u32,
    pub ctx: u32,
    /// Most tokens to emit.
    pub limit: usize,
}

/// What to do with a pending token, where `left` more may be emitted.
pub open spec fn turn_of(left: int, stops: bool, pos: int, margin: int, ctx: int) -> Turn {
    if left <= 0 {
        Turn::Done
    } else if stops || pos + margin >= ctx {
        Turn::Last
    } else {
        Turn::Emit
    }
}

/// What to do with the pending token.
#[derive(Clone, Copy, Debug, PartialEq, Eq, Structural)]
pub enum Turn {
    /// The limit is reached.
    Done,
    /// Forward it without emitting it, and end.
    Last,
    /// Emit it and go on.
    Emit,
}

/// How a chain of drafts came out.
#[derive(Clone, Copy, Debug, PartialEq, Eq, Structural)]
pub struct Settled {
    /// Drafts the model agrees with.
    pub accepted: usize,
    /// Drafts emitted.
    pub emitted: usize,
    /// A stop token or the limit was met among the accepted.
    pub finished: bool,
}

/// The drafts that the model's picks agree with, from the `j`-th on.
pub open spec fn accepted_from(chain: Seq<u32>, picks: Seq<u32>, j: int) -> int
    decreases chain.len() - j,
{
    if j + 1 < chain.len() && picks[j] == chain[j + 1] {
        accepted_from(chain, picks, j + 1)
    } else {
        j
    }
}

/// Number of drafts accepted.
pub open spec fn accepted(chain: Seq<u32>, picks: Seq<u32>) -> int {
    accepted_from(chain, picks, 0)
}

/// First of the chain's tokens `i..=j` that is not emitted: a stop token, or
/// one behind the limit.
pub open spec fn emit_end(stops: Seq<bool>, left: int, i: int, j: int) -> int
    decreases j + 1 - i,
{
    if i > j || stops[i] || left <= 0 {
        i
    } else {
        emit_end(stops, left - 1, i + 1, j)
    }
}

impl Run {
    /// Tokens that may still be emitted.
    pub open spec fn left(&self) -> int {
        self.limit - (self.hist@.len() - self.start)
    }

    pub open spec fn wf(&self) -> bool {
        self.start <= self.hist@.len()
    }

    /// A run behind its prompt, with the first choice pending.
    pub fn new(prompt: Vec<u32>, pos: u32, next: u32, ctx: u32, limit: usize) -> (r: Run)
        ensures
            r.hist@ == prompt@,
            r.start == prompt@.len(),
            r.pos == pos && r.next == next && r.ctx == ctx && r.limit == limit,
            r.wf(),
    {
        let start: usize = prompt.len();
        Run { hist: prompt, start, pos, next, ctx, limit }
    }

    /// Tokens emitted so far.
    pub fn emitted(&self) -> (n: usize)
        requires
            self.wf(),
        ensures
            n == self.hist@.len() - self.start,
    {
        self.hist.len() - self.start
    }

    /// The limit is reached.
    pub fn over(&self) -> (r: bool)
        requires
            self.wf(),
        ensures
            r == (self.left() <= 0),
    {
        self.emitted() >= self.limit
    }

    /// `pick` is the pending token from now on.
    pub fn choose_next(&mut self, pick: u32)
        ensures
            final(self).next == pick,
            final(self).pos == old(self).pos,
            final(self).hist@ == old(self).hist@,
            final(self).start == old(self).start,
            final(self).ctx == old(self).ctx,
            final(self).limit == old(self).limit,
    {
        self.next = pick;
    }

    /// What to do with the pending token. `margin` is how far before the end
    /// of the context a run ends: one position, two with a draft layer.
    pub fn turn(&self, stops: bool, margin: u32) -> (t: Turn)
        requires
            self.wf(),
        ensures
            t == turn_of(self.left(), stops, self.pos as int, margin as int, self.ctx as int),
    {
        if self.emitted() >= self.limit {
            Turn::Done
        } else if stops || self.pos as u64 + margin as u64 >= self.ctx as u64 {
            Turn::Last
        } else {
            Turn::Emit
        }
    }

    /// The pending token was forwarded alone.
    pub fn forwarded(&mut self)
        requires
            old(self).pos < u32::MAX,
        ensures
            final(self).pos == old(self).pos + 1,
            final(self).hist@ == old(self).hist@,
            final(self).start == old(self).start,
            final(self).next == old(self).next,
            final(self).ctx == old(self).ctx,
            final(self).limit == old(self).limit,
    {
        self.pos = self.pos + 1;
    }

    /// Emit the pending token.
    pub fn emit(&mut self) -> (t: u32)
        requires
            old(self).wf(),
        ensures
            t == old(self).next,
            final(self).hist@ == old(self).hist@.push(t),
            final(self).pos == old(self).pos,
            final(self).start == old(self).start,
            final(self).next == old(self).next,
            final(self).ctx == old(self).ctx,
            final(self).limit == old(self).limit,
            final(self).wf(),
    {
        let t: u32 = self.next;
        self.hist.push(t);
        t
    }

    /// The emitted token was forwarded alone, and `pick` chosen behind it.
    pub fn advance(&mut self, pick: u32)
        requires
            old(self).pos < u32::MAX,
        ensures
            final(self).pos == old(self).pos + 1,
            final(self).next == pick,
            final(self).hist@ == old(self).hist@,
            final(self).start == old(self).start,
            final(self).ctx == old(self).ctx,
            final(self).limit == old(self).limit,
    {
        self.pos = self.pos + 1;
        self.next = pick;
    }

    /// The emitted token was forwarded with a chain of drafts behind it.
    /// `picks` holds the model's choice behind each token of the chain,
    /// `stops` which of the chain's tokens end a run.
    pub fn settle(&mut self, chain: &Vec<u32>, picks: &Vec<u32>, stops: &Vec<bool>) -> (r: Settled)
        requires
            old(self).wf(),
            chain@.len() >= 1,
            picks@.len() == chain@.len(),
            stops@.len() == chain@.len(),
            old(self).pos + chain@.len() <= u32::MAX,
        ensures
            ({
                let j = accepted(chain@, picks@);
                let e = emit_end(stops@, old(self).left(), 1, j);
                &&& 0 <= j < chain@.len()
                &&& 1 <= e <= j + 1
                &&& r.accepted == j
                &&& r.emitted == e - 1
                &&& r.finished == (e <= j)
                &&& final(self).hist@ == old(self).hist@ + chain@.subrange(1, e)
                &&& final(self).pos == old(self).pos + j + 1
                &&& final(self).next == picks@[j]
            }),
            final(self).start == old(self).start,
            final(self).ctx == old(self).ctx,
            final(self).limit == old(self).limit,
            final(self).wf(),
    {
        let n: usize = chain.len();
        let mut j: usize = 0;
        while j + 1 < n && picks[j] == chain[j + 1]
            invariant
                j < n,
                n == chain@.len(),
                n == picks@.len(),
                accepted(chain@, picks@) == accepted_from(chain@, picks@, j as int),
            decreases n - j,
        {
            j = j + 1;
        }
        self.pos = self.pos + (j as u32 + 1);
        self.next = picks[j];
        let mut i: usize = 1;
        assert(self.hist@ + chain@.subrange(1, 1) =~= self.hist@);
        let ghost h0 = self.hist@;
        let ghost left0 = old(self).left();
        while i <= j && !stops[i] && self.emitted() < self.limit
            invariant
                1 <= i <= j + 1,
                j < n,
                n == chain@.len(),
                n == stops@.len(),
                self.wf(),
                self.hist@ =~= h0 + chain@.subrange(1, i as int),
                self.left() == left0 - (i - 1),
                emit_end(stops@, left0, 1, j as int) == emit_end(
                    stops@,
                    left0 - (i - 1),
                    i as int,
                    j as int,
                ),
                self.start == old(self).start,
                self.ctx == old(self).ctx,
                self.limit == old(self).limit,
                self.pos == old(self).pos + j + 1,
                self.next == picks@[j as int],
            decreases j + 1 - i,
        {
            self.hist.push(chain[i]);
            i = i + 1;
        }
        Settled { accepted: j, emitted: i - 1, finished: i <= j }
    }

    /// A block that starts with the pending token was forwarded whole; none
    /// of it was emitted before. `picks` and `stops` are as for a chain.
    pub fn settle_block(&mut self, chain: &Vec<u32>, picks: &Vec<u32>, stops: &Vec<bool>) -> (r:
        Settled)
        requires
            old(self).wf(),
            chain@.len() >= 1,
            picks@.len() == chain@.len(),
            stops@.len() == chain@.len(),
            old(self).pos + chain@.len() <= u32::MAX,
        ensures
            ({
                let j = accepted(chain@, picks@);
                let e = emit_end(stops@, old(self).left(), 0, j);
                &&& 0 <= j < chain@.len()
                &&& 0 <= e <= j + 1
                &&& r.accepted == j
                &&& r.emitted == e
                &&& r.finished == (e <= j || old(self).left() - e <= 0)
                &&& final(self).hist@ == old(self).hist@ + chain@.take(e)
                &&& final(self).pos == old(self).pos + j + 1
                &&& final(self).next == picks@[j]
            }),
            final(self).start == old(self).start,
            final(self).ctx == old(self).ctx,
            final(self).limit == old(self).limit,
            final(self).wf(),
    {
        let n: usize = chain.len();
        let mut j: usize = 0;
        while j + 1 < n && picks[j] == chain[j + 1]
            invariant
                j < n,
                n == chain@.len(),
                n == picks@.len(),
                accepted(chain@, picks@) == accepted_from(chain@, picks@, j as int),
            decreases n - j,
        {
            j = j + 1;
        }
        self.pos = self.pos + (j as u32 + 1);
        self.next = picks[j];
        let mut i: usize = 0;
        assert(self.hist@ + chain@.take(0) =~= self.hist@);
        let ghost h0 = self.hist@;
        let ghost left0 = old(self).left();
        while i <= j && !stops[i] && self.emitted() < self.limit
            invariant
                i <= j + 1,
                j < n,
                n == chain@.len(),
                n == stops@.len(),
                self.wf(),
                self.hist@ =~= h0 + chain@.take(i as int),
                self.left() == left0 - i,
                emit_end(stops@, left0, 0, j as int) == emit_end(
                    stops@,
                    left0 - i,
                    i as int,
                    j as int,
                ),
                self.start == old(self).start,
                self.ctx == old(self).ctx,
                self.limit == old(self).limit,
                self.pos == old(self).pos + j + 1,
                self.next == picks@[j as int],
            decreases j + 1 - i,
        {
            self.hist.push(chain[i]);
            i = i + 1;
        }
        Settled { accepted: j, emitted: i, finished: i <= j || self.emitted() >= self.limit }
    }
}

/// The accepted drafts are those the model's picks agree with.
pub proof fn lemma_accepted(chain: Seq<u32>, picks: Seq<u32>, i: int)
    requires
        0 <= i < chain.len(),
    ensures
        i <= accepted_from(chain, picks, i) < chain.len(),
        forall|k: int|
            i <= k < accepted_from(chain, picks, i) ==> #[trigger] picks[k] == chain[k + 1],
    decreases chain.len() - i,
{
    if i + 1 < chain.len() && picks[i] == chain[i + 1] {
        lemma_accepted(chain, picks, i + 1);
    }
}

/// What is emitted stays below the limit and holds no stop token.
pub proof fn lemma_emit_end(stops: Seq<bool>, left: int, i: int, j: int)
    requires
        i <= j + 1,
    ensures
        i <= emit_end(stops, left, i, j) <= j + 1,
        forall|k: int| i <= k < emit_end(stops, left, i, j) ==> !#[trigger] stops[k],
        emit_end(stops, left, i, j) - i <= if left > 0 { left } else { 0 },
        emit_end(stops, left, i, j) <= j ==> stops[emit_end(stops, left, i, j)] || emit_end(
            stops,
            left,
            i,
            j,
        ) - i >= left,
    decreases j + 1 - i,
{
    if !(i > j || stops[i] || left <= 0) {
        lemma_emit_end(stops, left - 1, i + 1, j);
    }
}

/// Tokens that are the model's own choices, one after another, are what the
/// stream starts with.
proof fn lemma_stream_prefix(
    g: spec_fn(Seq<u32>) -> u32,
    stop: spec_fn(u32) -> bool,
    hist: Seq<u32>,
    pos: int,
    ctx: int,
    left: int,
    t: Seq<u32>,
)
    requires
        t.len() <= left || t.len() == 0,
        pos + t.len() < ctx || t.len() == 0,
        forall|i: int|
            0 <= i < t.len() ==> #[trigger] t[i] == g(hist + t.take(i)) && !stop(t[i]),
    ensures
        stream(g, stop, hist, pos, ctx, left) == t + stream(
            g,
            stop,
            hist + t,
            pos + t.len(),
            ctx,
            left - t.len(),
        ),
    decreases t.len(),
{
    if t.len() == 0 {
        assert(hist + t =~= hist);
        assert(t + stream(g, stop, hist, pos, ctx, left) =~= stream(g, stop, hist, pos, ctx, left));
    } else {
        assert(t[0] == g(hist + t.take(0)));
        assert(hist + t.take(0) =~= hist);
        let u = t.skip(1);
        let h1 = hist.push(t[0]);
        assert forall|i: int| 0 <= i < u.len() implies #[trigger] u[i] == g(h1 + u.take(i))
            && !stop(u[i]) by {
            assert(t[i + 1] == g(hist + t.take(i + 1)));
            assert(hist + t.take(i + 1) =~= h1 + u.take(i));
        }
        lemma_stream_prefix(g, stop, h1, pos + 1, ctx, left - 1, u);
        assert(h1 + u =~= hist + t);
        let tail = stream(g, stop, hist + t, pos + t.len(), ctx, left - t.len());
        assert(seq![t[0]] + (u + tail) =~= t + tail);
    }
}

/// Emitting the model's choice and forwarding it alone leaves the whole
/// stream what it was.
pub proof fn plain_step_keeps_the_stream(
    g: spec_fn(Seq<u32>) -> u32,
    stop: spec_fn(u32) -> bool,
    hist: Seq<u32>,
    pos: int,
    ctx: int,
    left: int,
)
    requires
        left > 0,
        !stop(g(hist)),
        pos + 1 < ctx,
    ensures
        hist + stream(g, stop, hist, pos, ctx, left) == hist.push(g(hist)) + stream(
            g,
            stop,
            hist.push(g(hist)),
            pos + 1,
            ctx,
            left - 1,
        ),
{
    let t = g(hist);
    let tail = stream(g, stop, hist.push(t), pos + 1, ctx, left - 1);
    assert(hist + (seq![t] + tail) =~= hist.push(t) + tail);
}

/// Speculation never changes the output. A round starts with history `hist`,
/// the model's choice `chain[0]` pending at `pos`, and drafts behind it; the
/// model's picks are its choices behind each token of the chain. Whatever
/// the drafts are, after the round the tokens emitted so far and the stream
/// that is still to come make up the stream of plain decoding; and where the
/// round finished the run, nothing was still to come.
pub proof fn speculation_keeps_the_stream(
    g: spec_fn(Seq<u32>) -> u32,
    stop: spec_fn(u32) -> bool,
    hist: Seq<u32>,
    pos: int,
    ctx: int,
    left: int,
    chain: Seq<u32>,
    picks: Seq<u32>,
    stops: Seq<bool>,
)
    requires
        left > 0,
        chain.len() >= 1,
        picks.len() == chain.len(),
        stops.len() == chain.len(),
        pos + chain.len() < ctx,
        chain[0] == g(hist),
        forall|i: int| 0 <= i < chain.len() ==> #[trigger] stops[i] == stop(chain[i]),
        !stop(chain[0]),
        forall|i: int|
            0 <= i < chain.len() ==> #[trigger] picks[i] == g(hist + chain.take(i + 1)),
    ensures
        ({
            let j = accepted(chain, picks);
            let e = emit_end(stops, left - 1, 1, j);
            let now = hist + chain.take(e);
            let whole = hist + stream(g, stop, hist, pos, ctx, left);
            &&& e <= j ==> whole == now
            &&& e > j ==> picks[j] == g(now) && whole == now + stream(
                g,
                stop,
                now,
                pos + j + 1,
                ctx,
                left - 1 - j,
            )
        }),
{
    let j = accepted(chain, picks);
    let e = emit_end(stops, left - 1, 1, j);
    lemma_accepted(chain, picks, 0);
    lemma_emit_end(stops, left - 1, 1, j);
    let t = chain.take(e);
    assert forall|i: int| 0 <= i < t.len() implies #[trigger] t[i] == g(hist + t.take(i)) && !stop(
        t[i],
    ) by {
        if i == 0 {
            assert(hist + t.take(0) =~= hist);
        } else {
            assert(picks[i - 1] == chain[i]);
            assert(picks[i - 1] == g(hist + chain.take(i)));
            assert(chain.take(i) =~= t.take(i));
            assert(!stops[i]);
        }
    }
    lemma_stream_prefix(g, stop, hist, pos, ctx, left, t);
    let now = hist + t;
    let tail = stream(g, stop, now, pos + e, ctx, left - e);
    assert(hist + (t + tail) =~= now + tail);
    if e <= j {
        assert(picks[e - 1] == chain[e]);
        assert(picks[e - 1] == g(hist + chain.take(e)));
        assert(stops[e] == stop(chain[e]));
        assert(tail =~= Seq::<u32>::empty());
        assert(now + tail =~= now);
    } else {
        assert(e == j + 1);
        assert(picks[j] == g(hist + chain.take(j + 1)));
    }
}

/// The same for a block of which nothing was emitted before the round: its
/// first token is the pending one, and may itself end the run.
pub proof fn block_keeps_the_stream(
    g: spec_fn(Seq<u32>) -> u32,
    stop: spec_fn(u32) -> bool,
    hist: Seq<u32>,
    pos: int,
    ctx: int,
    left: int,
    chain: Seq<u32>,
    picks: Seq<u32>,
    stops: Seq<bool>,
)
    requires
        left > 0,
        chain.len() >= 1,
        picks.len() == chain.len(),
        stops.len() == chain.len(),
        pos + chain.len() < ctx,
        chain[0] == g(hist),
        forall|i: int| 0 <= i < chain.len() ==> #[trigger] stops[i] == stop(chain[i]),
        forall|i: int|
            0 <= i < chain.len() ==> #[trigger] picks[i] == g(hist + chain.take(i + 1)),
    ensures
        ({
            let j = accepted(chain, picks);
            let e = emit_end(stops, left, 0, j);
            let now = hist + chain.take(e);
            let whole = hist + stream(g, stop, hist, pos, ctx, left);
            &&& e <= j || left - e <= 0 ==> whole == now
            &&& e > j ==> picks[j] == g(now) && whole == now + stream(
                g,
                stop,
                now,
                pos + j + 1,
                ctx,
                left - 1 - j,
            )
        }),
{
    let j = accepted(chain, picks);
    let e = emit_end(stops, left, 0, j);
    lemma_accepted(chain, picks, 0);
    lemma_emit_end(stops, left, 0, j);
    assert(chain.take(0) =~= Seq::<u32>::empty());
    assert(hist + Seq::<u32>::empty() =~= hist);
    let t = chain.take(e);
    assert forall|i: int| 0 <= i < t.len() implies #[trigger] t[i] == g(hist + t.take(i)) && !stop(
        t[i],
    ) by {
        assert(!stops[i]);
        if i == 0 {
            assert(hist + t.take(0) =~= hist);
        } else {
            assert(picks[i - 1] == chain[i]);
            assert(picks[i - 1] == g(hist + chain.take(i)));
            assert(chain.take(i) =~= t.take(i));
        }
    }
    lemma_stream_prefix(g, stop, hist, pos, ctx, left, t);
    let now = hist + t;
    let tail = stream(g, stop, now, pos + e, ctx, left - e);
    assert(hist + (t + tail) =~= now + tail);
    if e <= j {
        if e == 0 {
            assert(stops[0] == stop(chain[0]));
        } else {
            assert(picks[e - 1] == chain[e]);
            assert(picks[e - 1] == g(hist + chain.take(e)));
            assert(stops[e] == stop(chain[e]));
        }
        assert(tail =~= Seq::<u32>::empty());
        assert(now + tail =~= now);
    } else {
        assert(picks[j] == g(hist + chain.take(j + 1)));
        if left - e <= 0 {
            assert(tail =~= Seq::<u32>::empty());
            assert(now + tail =~= now);
        }
    }
}

/// A whole run behind `hist`: what it has emitted in the end, prompt
/// included. Each round emits the model's choice, asks `drafts` for what may
/// follow, and settles the chain by the model's choices behind each of its
/// tokens; a round without drafts runs one token.
pub open spec fn run_out(
    g: spec_fn(Seq<u32>) -> u32,
    stop: spec_fn(u32) -> bool,
    drafts: spec_fn(Seq<u32>, int) -> Seq<u32>,
    margin: int,
    hist: Seq<u32>,
    pos: int,
    ctx: int,
    left: int,
) -> Seq<u32>
    decreases left,
{
    let t = g(hist);
    if turn_of(left, stop(t), pos, margin, ctx) != Turn::Emit {
        hist
    } else {
        let chain = chain_of(t, drafts(hist.push(t), pos));
        let picks = picks_of(g, hist, chain);
        let stops = stops_of(stop, chain);
        let j = accepted(chain, picks);
        let e = emit_end(stops, left - 1, 1, j);
        proof {
            lemma_accepted(chain, picks, 0);
            lemma_emit_end(stops, left - 1, 1, j);
        }
        if e <= j {
            hist + chain.take(e)
        } else {
            run_out(g, stop, drafts, margin, hist + chain.take(e), pos + e, ctx, left - e)
        }
    }
}

/// A token with its drafts behind it.
pub open spec fn chain_of(t: u32, drafts: Seq<u32>) -> Seq<u32> {
    seq![t] + drafts
}

/// The model's choices behind each token of a chain.
pub open spec fn picks_of(g: spec_fn(Seq<u32>) -> u32, hist: Seq<u32>, chain: Seq<u32>) -> Seq<u32> {
    Seq::new(chain.len(), |i: int| g(hist + chain.take(i + 1)))
}

/// Which tokens of a chain end a run.
pub open spec fn stops_of(stop: spec_fn(u32) -> bool, chain: Seq<u32>) -> Seq<bool> {
    Seq::new(chain.len(), |i: int| stop(chain[i]))
}

/// Every chain stays inside the context, as the draft depth and the test
/// for fitting drafts see to.
pub open spec fn chains_fit(drafts: spec_fn(Seq<u32>, int) -> Seq<u32>, ctx: int) -> bool {
    forall|h: Seq<u32>, p: int|
        p + 2 < ctx ==> p + 1 + (#[trigger] drafts(h, p)).len() < ctx
}

/// Speculation never changes a run. Where the context has room for every
/// token that may be emitted, a run emits the stream of plain decoding,
/// whatever is drafted.
pub proof fn run_emits_the_stream(
    g: spec_fn(Seq<u32>) -> u32,
    stop: spec_fn(u32) -> bool,
    drafts: spec_fn(Seq<u32>, int) -> Seq<u32>,
    margin: int,
    hist: Seq<u32>,
    pos: int,
    ctx: int,
    left: int,
)
    requires
        margin <= 2,
        pos + left + 2 <= ctx,
        chains_fit(drafts, ctx),
    ensures
        run_out(g, stop, drafts, margin, hist, pos, ctx, left) == hist + stream(
            g,
            stop,
            hist,
            pos,
            ctx,
            left,
        ),
    decreases left,
{
    let t = g(hist);
    if turn_of(left, stop(t), pos, margin, ctx) != Turn::Emit {
        assert(hist + stream(g, stop, hist, pos, ctx, left) =~= hist);
    } else {
        let d = drafts(hist.push(t), pos);
        let chain = chain_of(t, d);
        let picks = picks_of(g, hist, chain);
        let stops = stops_of(stop, chain);
        let j = accepted(chain, picks);
        let e = emit_end(stops, left - 1, 1, j);
        assert(chain[0] == t);
        assert(pos + chain.len() < ctx);
        lemma_accepted(chain, picks, 0);
        lemma_emit_end(stops, left - 1, 1, j);
        speculation_keeps_the_stream(g, stop, hist, pos, ctx, left, chain, picks, stops);
        if e > j {
            run_emits_the_stream(
                g,
                stop,
                drafts,
                margin,
                hist + chain.take(e),
                pos + e,
                ctx,
                left - e,
            );
        }
    }
}

/// Two greedy runs of the same prompt, stop tokens and limit emit the same
/// tokens, however each of them speculates, or if it does at all.
pub proof fn runs_emit_the_same(
    g: spec_fn(Seq<u32>) -> u32,
    stop: spec_fn(u32) -> bool,
    a: spec_fn(Seq<u32>, int) -> Seq<u32>,
    margin_a: int,
    b: spec_fn(Seq<u32>, int) -> Seq<u32>,
    margin_b: int,
    hist: Seq<u32>,
    pos: int,
    ctx: int,
    left: int,
)
    requires
        margin_a <= 2,
        margin_b <= 2,
        pos + left + 2 <= ctx,
        chains_fit(a, ctx),
        chains_fit(b, ctx),
    ensures
        run_out(g, stop, a, margin_a, hist, pos, ctx, left) == run_out(
            g,
            stop,
            b,
            margin_b,
            hist,
            pos,
            ctx,
            left,
        ),
{
    run_emits_the_stream(g, stop, a, margin_a, hist, pos, ctx, left);
    run_emits_the_stream(g, stop, b, margin_b, hist, pos, ctx, left);
}

/// A run that ends on a stop token, or at the end of the context, has
/// emitted the whole stream.
pub proof fn ended_run_is_complete(
    g: spec_fn(Seq<u32>) -> u32,
    stop: spec_fn(u32) -> bool,
    hist: Seq<u32>,
    pos: int,
    ctx: int,
    left: int,
)
    requires
        left <= 0 || stop(g(hist)) || pos + 1 >= ctx,
    ensures
        stream(g, stop, hist, pos, ctx, left).len() == 0,
{
}

/// A run with a draft layer ends one position earlier: at most one token of
/// the stream is then still to come.
pub proof fn layer_run_is_complete_but_one(
    g: spec_fn(Seq<u32>) -> u32,
    stop: spec_fn(u32) -> bool,
    hist: Seq<u32>,
    pos: int,
    ctx: int,
    left: int,
)
    requires
        pos + 2 >= ctx,
    ensures
        stream(g, stop, hist, pos, ctx, left).len() <= 1,
{
    reveal_with_fuel(stream, 3);
}

/// The last `m` tokens also stand at `i`, with tokens between.
pub open spec fn recurs(hist: Seq<u32>, m: int, i: int) -> bool {
    &&& 0 <= i
    &&& i + m < hist.len() - m
    &&& hist.subrange(i, i + m) == hist.skip(hist.len() - m)
}

/// The latest place below `n` where the last `m` tokens recur.
pub open spec fn last_recurrence(hist: Seq<u32>, m: int, n: int) -> Option<int>
    decreases n,
{
    if n <= 0 {
        None
    } else if recurs(hist, m, n - 1) {
        Some(n - 1)
    } else {
        last_recurrence(hist, m, n - 1)
    }
}

/// The tokens that followed a recurrence, at most `depth`.
pub open spec fn followers(hist: Seq<u32>, m: int, i: int, depth: int) -> Seq<u32> {
    let end = if i + m + depth <= hist.len() - m { i + m + depth } else { hist.len() - m };
    hist.subrange(i + m, end)
}

/// Drafts from repetition: what followed the latest recurrence of the last
/// four tokens, else of the last three.
pub open spec fn draft_of(hist: Seq<u32>, depth: int) -> Seq<u32> {
    match last_recurrence(hist, 4, hist.len() - 4) {
        Some(i) => followers(hist, 4, i, depth),
        None => match last_recurrence(hist, 3, hist.len() - 3) {
            Some(i) => followers(hist, 3, i, depth),
            None => Seq::empty(),
        },
    }
}

/// Drafts from repetition are at most as many as asked for.
pub proof fn lemma_draft_len(hist: Seq<u32>, depth: int)
    requires
        depth >= 0,
    ensures
        draft_of(hist, depth).len() <= depth,
{
    lemma_recurs(hist, 4, hist.len() - 4);
    lemma_recurs(hist, 3, hist.len() - 3);
}

proof fn lemma_recurs(hist: Seq<u32>, m: int, n: int)
    ensures
        last_recurrence(hist, m, n) matches Some(i) ==> recurs(hist, m, i),
    decreases n,
{
    if n > 0 {
        lemma_recurs(hist, m, n - 1);
    }
}

fn find_recurrence(hist: &Vec<u32>, m: usize) -> (r: Option<usize>)
    requires
        1 <= m,
    ensures
        match r {
            Some(i) => last_recurrence(hist@, m as int, hist@.len() - m) == Some(i as int)
                && recurs(hist@, m as int, i as int),
            None => last_recurrence(hist@, m as int, hist@.len() - m) is None,
        },
{
    let n: usize = hist.len();
    if n < m {
        return None;
    }
    let limit: usize = n - m;
    let mut i: usize = limit;
    while i > 0
        invariant
            i <= limit,
            limit + m == n,
            n == hist@.len(),
            1 <= m,
            last_recurrence(hist@, m as int, limit as int) == last_recurrence(
                hist@,
                m as int,
                i as int,
            ),
        decreases i,
    {
        let at: usize = i - 1;
        if m < limit && at < limit - m {
            let mut k: usize = 0;
            let ghost a = hist@.subrange(at as int, at + m);
            let ghost b = hist@.skip(limit as int);
            while k < m && hist[at + k] == hist[limit + k]
                invariant
                    k <= m,
                    at + m < limit,
                    limit + m == n,
                    n == hist@.len(),
                    a == hist@.subrange(at as int, at + m),
                    b == hist@.skip(limit as int),
                    forall|x: int| 0 <= x < k ==> a[x] == b[x],
                decreases m - k,
            {
                k = k + 1;
            }
            if k == m {
                assert(a =~= b);
                return Some(at);
            }
            proof {
                assert(a[k as int] == hist@[at + k] && b[k as int] == hist@[limit + k]);
            }
        }
        i = i - 1;
    }
    None
}

fn take_followers(hist: &Vec<u32>, m: usize, i: usize, depth: usize) -> (d: Vec<u32>)
    requires
        recurs(hist@, m as int, i as int),
        depth <= 15,
    ensures
        d@ == followers(hist@, m as int, i as int, depth as int),
{
    let limit: usize = hist.len() - m;
    let lo: usize = i + m;
    let mut d: Vec<u32> = Vec::new();
    let mut j: usize = lo;
    while d.len() < depth && j < limit
        invariant
            lo <= j <= limit <= hist@.len(),
            depth <= 15,
            d@.len() <= depth,
            d@ =~= hist@.subrange(lo as int, j as int),
        decreases limit - j,
    {
        d.push(hist[j]);
        j = j + 1;
    }
    assert(d@ =~= followers(hist@, m as int, i as int, depth as int));
    d
}

/// What a run drafts from repetition at `pos`: nothing where the chain would
/// not fit.
pub open spec fn ngram_drafts(depth: int, ctx: int) -> spec_fn(Seq<u32>, int) -> Seq<u32> {
    |hist: Seq<u32>, pos: int|
        {
            let d = draft_of(hist, depth);
            if d.len() > 0 && pos + 2 + d.len() < ctx {
                d
            } else {
                Seq::empty()
            }
        }
}

/// A run that drafts from repetition emits the stream of plain decoding.
pub proof fn ngram_run_emits_the_stream(
    g: spec_fn(Seq<u32>) -> u32,
    stop: spec_fn(u32) -> bool,
    depth: int,
    hist: Seq<u32>,
    pos: int,
    ctx: int,
    left: int,
)
    requires
        pos + left + 2 <= ctx,
    ensures
        run_out(g, stop, ngram_drafts(depth, ctx), 1, hist, pos, ctx, left) == hist + stream(
            g,
            stop,
            hist,
            pos,
            ctx,
            left,
        ),
{
    run_emits_the_stream(g, stop, ngram_drafts(depth, ctx), 1, hist, pos, ctx, left);
}

/// A run that drafts with the model's own layer, as deep as a round goes,
/// emits the stream of plain decoding.
pub proof fn layer_run_emits_the_stream(
    g: spec_fn(Seq<u32>) -> u32,
    stop: spec_fn(u32) -> bool,
    drafts: spec_fn(Seq<u32>, int) -> Seq<u32>,
    most: int,
    hist: Seq<u32>,
    pos: int,
    ctx: int,
    left: int,
)
    requires
        pos + left + 2 <= ctx,
        forall|h: Seq<u32>, p: int|
            p + 2 < ctx ==> (#[trigger] drafts(h, p)).len() <= round_depth(most, p, ctx),
    ensures
        run_out(g, stop, drafts, 2, hist, pos, ctx, left) == hist + stream(
            g,
            stop,
            hist,
            pos,
            ctx,
            left,
        ),
{
    assert(chains_fit(drafts, ctx));
    run_emits_the_stream(g, stop, drafts, 2, hist, pos, ctx, left);
}

/// Steps of the draft layer in one round.
pub open spec fn round_depth(most: int, pos: int, ctx: int) -> int {
    let d = if most >= 1 { most } else { 1 };
    if d <= ctx - pos - 2 {
        d
    } else {
        ctx - pos - 2
    }
}

/// Drafts from repetition in the tokens so far.
pub fn ngram_draft(hist: &Vec<u32>, depth: usize) -> (d: Vec<u32>)
    requires
        1 <= depth <= 15,
    ensures
        d@ == draft_of(hist@, depth as int),
{
    match find_recurrence(hist, 4) {
        Some(i) => take_followers(hist, 4, i, depth),
        None => match find_recurrence(hist, 3) {
            Some(i) => take_followers(hist, 3, i, depth),
            None => Vec::new(),
        },
    }
}

/// The drafts are worth a chain: there are some, and the context has room
/// for all of them and what follows.
pub fn drafts_fit(pos: u32, n: usize, ctx: u32) -> (r: bool)
    requires
        n <= 15,
    ensures
        r == (n > 0 && pos + 2 + n < ctx),
{
    n > 0 && pos as u64 + 2 + (n as u64) < ctx as u64
}

/// Steps of the draft layer in one round.
pub fn draft_depth(most: u32, pos: u32, ctx: u32) -> (n: u32)
    requires
        pos + 2 < ctx,
    ensures
        n == round_depth(most as int, pos as int, ctx as int),
        n >= 1,
{
    let d: u32 = if most >= 1 {
        most
    } else {
        1
    };
    let room: u32 = ctx - pos - 2;
    if d <= room {
        d
    } else {
        room
    }
}

/// One more draft is worth making: the round is not deep enough, and the
/// last draft did not end the run.
pub fn drafts_on(made: u32, depth: u32, last_stops: bool) -> (r: bool)
    ensures
        r == (made < depth && !last_stops),
{
    made < depth && !last_stops
}

/// A partly refused chain has moved the rolling state too far: restore it,
/// and forward the accepted part again.
pub fn must_replay(family: Family, accepted: usize, drafts: usize) -> (r: bool)
    ensures
        r == (family == Family::Qwen35 && accepted < drafts),
{
    family == Family::Qwen35 && accepted < drafts
}

/// Positions that must be left behind a token for the round to go on.
pub fn margin(how: Speculation) -> (n: u32)
    ensures
        n == if how == Speculation::Layer {
            2u32
        } else {
            1
        },
{
    match how {
        Speculation::Layer => 2,
        _ => 1,
    }
}

/// The rolling state is kept before a chain, so that it can be restored.
pub fn keeps_state(how: Speculation, family: Family) -> (r: bool)
    ensures
        r == (how == Speculation::Layer && family == Family::Qwen35),
{
    match how {
        Speculation::Layer => family == Family::Qwen35,
        _ => false,
    }
}

} // verus!
