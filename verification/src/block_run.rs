//! A run that drafts whole blocks, as a machine: it says what to do next, is
//! told how that went, and shows what the model agrees with.

use vstd::prelude::*;

use crate::dflash;
use crate::generate;
use crate::generate::Run;

verus! {

/// What is to be done for a run.
#[derive(Clone, Copy, Debug, PartialEq, Eq, Structural)]
pub enum BlockAsk {
    /// Draft a block that starts with the pending token.
    Draft,
    /// Run the block, and choose behind each of its tokens.
    Verify,
    /// The run has ended at this position.
    End(u32),
}

/// How it went.
pub enum BlockEvent {
    /// A block, its first token the pending one.
    Drafted(Vec<u32>),
    /// Choices behind each token of the block, and which of its tokens end a
    /// run.
    Verified { picks: Vec<u32>, stops: Vec<bool> },
}

/// The same over sequences.
pub enum BlockEventView {
    Drafted(Seq<u32>),
    Verified { picks: Seq<u32>, stops: Seq<bool> },
}

impl View for BlockEvent {
    type V = BlockEventView;

    open spec fn view(&self) -> BlockEventView {
        match *self {
            BlockEvent::Drafted(b) => BlockEventView::Drafted(b@),
            BlockEvent::Verified { picks, stops } => BlockEventView::Verified {
                picks: picks@,
                stops: stops@,
            },
        }
    }
}

/// What a run waits for.
#[derive(Clone, Copy, Debug, PartialEq, Eq, Structural)]
pub enum BlockPhase {
    Draft,
    Verify,
    Over,
}

/// A run in progress.
pub struct BlockRun {
    pub run: Run,
    /// Most tokens of a block.
    pub size: usize,
    /// The latest block.
    pub block: Vec<u32>,
    /// Drafts that the latest verified block got accepted.
    pub accepted: usize,
    pub phase: BlockPhase,
}

/// A run as mathematics.
pub struct BlockView {
    pub size: int,
    pub hist: Seq<u32>,
    pub left: int,
    pub pos: int,
    pub ctx: int,
    pub next: u32,
    pub block: Seq<u32>,
    pub accepted: int,
    pub phase: BlockPhase,
}

impl View for BlockRun {
    type V = BlockView;

    open spec fn view(&self) -> BlockView {
        BlockView {
            size: self.size as int,
            hist: self.run.hist@,
            left: self.run.left(),
            pos: self.run.pos as int,
            ctx: self.run.ctx as int,
            next: self.run.next,
            block: self.block@,
            accepted: self.accepted as int,
            phase: self.phase,
        }
    }
}

/// A round is worth starting: a token may be shown, and the context has room
/// for a whole block and what follows.
pub open spec fn goes_on(left: int, pos: int, size: int, ctx: int) -> bool {
    left > 0 && pos + size + 1 < ctx
}

impl BlockView {
    /// What holds of every run.
    pub open spec fn wf(&self) -> bool {
        &&& self.phase != BlockPhase::Over ==> goes_on(self.left, self.pos, self.size, self.ctx)
        &&& self.phase == BlockPhase::Verify ==> {
            &&& 1 <= self.block.len() <= self.size
            &&& self.block[0] == self.next
        }
    }

    /// What is to be done for the run.
    pub open spec fn ask(&self) -> BlockAsk {
        match self.phase {
            BlockPhase::Draft => BlockAsk::Draft,
            BlockPhase::Verify => BlockAsk::Verify,
            BlockPhase::Over => BlockAsk::End(self.pos as u32),
        }
    }

    /// The event answers what was asked.
    pub open spec fn expects(&self, e: BlockEventView) -> bool {
        match e {
            BlockEventView::Drafted(b) => {
                &&& self.phase == BlockPhase::Draft
                &&& 1 <= b.len() <= self.size
                &&& b[0] == self.next
            },
            BlockEventView::Verified { picks, stops } => {
                &&& self.phase == BlockPhase::Verify
                &&& picks.len() == self.block.len()
                &&& stops.len() == self.block.len()
            },
        }
    }

    /// Before a round.
    pub open spec fn topped(self) -> BlockView {
        BlockView {
            phase: if goes_on(self.left, self.pos, self.size, self.ctx) {
                BlockPhase::Draft
            } else {
                BlockPhase::Over
            },
            ..self
        }
    }

    /// The run behind an event.
    pub open spec fn moved(self, e: BlockEventView) -> BlockView {
        match e {
            BlockEventView::Drafted(b) => BlockView {
                phase: BlockPhase::Verify,
                block: b,
                ..self
            },
            BlockEventView::Verified { picks, stops } => {
                let j = generate::accepted(self.block, picks);
                let end = generate::emit_end(stops, self.left, 0, j);
                let settled = BlockView {
                    hist: self.hist + self.block.take(end),
                    left: self.left - end,
                    pos: self.pos + j + 1,
                    next: picks[j],
                    accepted: j,
                    ..self
                };
                if end <= j {
                    BlockView { phase: BlockPhase::Over, ..settled }
                } else {
                    settled.topped()
                }
            },
        }
    }
}

/// A run before its first event: `first` is chosen behind the prompt, which
/// was run up to `pos`.
pub open spec fn block_start(
    prompt: Seq<u32>,
    pos: int,
    first: u32,
    ctx: int,
    limit: int,
    size: int,
) -> BlockView {
    (BlockView {
        size,
        hist: prompt,
        left: limit,
        pos,
        ctx,
        next: first,
        block: Seq::empty(),
        accepted: 0,
        phase: BlockPhase::Over,
    }).topped()
}

impl BlockRun {
    pub open spec fn wf(&self) -> bool {
        &&& self.run.wf()
        &&& self@.wf()
    }

    /// A run behind its prompt.
    pub fn new(prompt: Vec<u32>, pos: u32, first: u32, ctx: u32, limit: usize, size: usize) -> (r:
        BlockRun)
        ensures
            r.wf(),
            r@ == block_start(prompt@, pos as int, first, ctx as int, limit as int, size as int),
    {
        let run = Run::new(prompt, pos, first, ctx, limit);
        let mut r = BlockRun {
            run,
            size,
            block: Vec::new(),
            accepted: 0,
            phase: BlockPhase::Over,
        };
        r.top();
        r
    }

    /// What is to be done for the run.
    pub fn ask(&self) -> (a: BlockAsk)
        ensures
            a == self@.ask(),
    {
        match self.phase {
            BlockPhase::Draft => BlockAsk::Draft,
            BlockPhase::Verify => BlockAsk::Verify,
            BlockPhase::Over => BlockAsk::End(self.run.pos),
        }
    }

    fn top(&mut self)
        requires
            old(self).run.wf(),
        ensures
            final(self).wf(),
            final(self)@ == old(self)@.topped(),
    {
        self.phase = if !self.run.over() && dflash::block_fits(
            self.run.pos,
            self.size,
            self.run.ctx,
        ) {
            BlockPhase::Draft
        } else {
            BlockPhase::Over
        };
    }

    /// Takes an event in, and says what is to be done then.
    pub fn step(&mut self, e: BlockEvent) -> (a: BlockAsk)
        requires
            old(self).wf(),
            old(self)@.expects(e@),
        ensures
            final(self).wf(),
            final(self)@ == old(self)@.moved(e@),
            a == final(self)@.ask(),
    {
        match e {
            BlockEvent::Drafted(b) => {
                self.block = b;
                self.phase = BlockPhase::Verify;
            },
            BlockEvent::Verified { picks, stops } => {
                let s = self.run.settle_block(&self.block, &picks, &stops);
                self.accepted = s.accepted;
                if s.emitted <= s.accepted {
                    self.phase = BlockPhase::Over;
                } else {
                    self.top();
                }
            },
        }
        self.ask()
    }
}

/// A whole run behind `hist`: what it has shown in the end, prompt included.
/// Each round runs the model's choice with `drafts` behind it, and shows
/// what the model agrees with.
pub open spec fn block_out(
    g: spec_fn(Seq<u32>) -> u32,
    stop: spec_fn(u32) -> bool,
    drafts: spec_fn(Seq<u32>, int) -> Seq<u32>,
    size: int,
    hist: Seq<u32>,
    pos: int,
    ctx: int,
    left: int,
) -> Seq<u32>
    decreases left,
{
    if !goes_on(left, pos, size, ctx) {
        hist
    } else {
        let block = generate::chain_of(g(hist), drafts(hist, pos));
        let picks = generate::picks_of(g, hist, block);
        let stops = generate::stops_of(stop, block);
        let j = generate::accepted(block, picks);
        let end = generate::emit_end(stops, left, 0, j);
        proof {
            generate::lemma_accepted(block, picks, 0);
            generate::lemma_emit_end(stops, left, 0, j);
        }
        if end <= j {
            hist + block.take(end)
        } else {
            block_out(g, stop, drafts, size, hist + block.take(end), pos + end, ctx, left - end)
        }
    }
}

/// No block is longer than its size.
pub open spec fn blocks_fit(drafts: spec_fn(Seq<u32>, int) -> Seq<u32>, size: int) -> bool {
    forall|h: Seq<u32>, p: int| (#[trigger] drafts(h, p)).len() < size
}

/// Drafting blocks never changes the output. Whatever is drafted, a run
/// shows the beginning of the stream of plain decoding; and the whole of it,
/// where the context has room for a block behind every token that may be
/// shown.
pub proof fn block_run_shows_the_stream(
    g: spec_fn(Seq<u32>) -> u32,
    stop: spec_fn(u32) -> bool,
    drafts: spec_fn(Seq<u32>, int) -> Seq<u32>,
    size: int,
    hist: Seq<u32>,
    pos: int,
    ctx: int,
    left: int,
)
    requires
        blocks_fit(drafts, size),
    ensures
        ({
            let whole = hist + generate::stream(g, stop, hist, pos, ctx, left);
            let shown = block_out(g, stop, drafts, size, hist, pos, ctx, left);
            &&& shown.is_prefix_of(whole)
            &&& pos + left + size + 1 <= ctx ==> shown == whole
        }),
    decreases left,
{
    let whole = hist + generate::stream(g, stop, hist, pos, ctx, left);
    if !goes_on(left, pos, size, ctx) {
        if left <= 0 {
            assert(whole =~= hist);
        }
    } else {
        let block = generate::chain_of(g(hist), drafts(hist, pos));
        let picks = generate::picks_of(g, hist, block);
        let stops = generate::stops_of(stop, block);
        let j = generate::accepted(block, picks);
        let end = generate::emit_end(stops, left, 0, j);
        generate::lemma_accepted(block, picks, 0);
        generate::lemma_emit_end(stops, left, 0, j);
        assert(block[0] == g(hist));
        generate::block_keeps_the_stream(g, stop, hist, pos, ctx, left, block, picks, stops);
        if end > j {
            block_run_shows_the_stream(
                g,
                stop,
                drafts,
                size,
                hist + block.take(end),
                pos + end,
                ctx,
                left - end,
            );
        }
    }
}

impl BlockView {
    /// The event tells of a model that chooses by `g`, of tokens that end a
    /// run by `stop`, and of drafts by `drafts`.
    pub open spec fn faithful(
        &self,
        e: BlockEventView,
        g: spec_fn(Seq<u32>) -> u32,
        stop: spec_fn(u32) -> bool,
        drafts: spec_fn(Seq<u32>, int) -> Seq<u32>,
    ) -> bool {
        match e {
            BlockEventView::Drafted(b) => b == generate::chain_of(
                self.next,
                drafts(self.hist, self.pos),
            ),
            BlockEventView::Verified { picks, stops } => {
                &&& picks == generate::picks_of(g, self.hist, self.block)
                &&& stops == generate::stops_of(stop, self.block)
            },
        }
    }

    /// What the run knows of its pending token is so.
    pub open spec fn sound(
        &self,
        g: spec_fn(Seq<u32>) -> u32,
        drafts: spec_fn(Seq<u32>, int) -> Seq<u32>,
    ) -> bool {
        &&& self.phase != BlockPhase::Over ==> self.next == g(self.hist)
        &&& self.phase == BlockPhase::Verify ==> self.block == generate::chain_of(
            self.next,
            drafts(self.hist, self.pos),
        )
    }

    /// All that the run will have shown in the end, prompt included.
    pub open spec fn outcome(
        &self,
        g: spec_fn(Seq<u32>) -> u32,
        stop: spec_fn(u32) -> bool,
        drafts: spec_fn(Seq<u32>, int) -> Seq<u32>,
    ) -> Seq<u32> {
        if self.phase == BlockPhase::Over {
            self.hist
        } else {
            block_out(
                g,
                stop,
                drafts,
                self.size,
                self.hist,
                self.pos,
                self.ctx,
                self.left,
            )
        }
    }
}

/// A faithful event changes nothing of what a run will have shown in the
/// end.
pub proof fn block_step_keeps_the_outcome(
    v: BlockView,
    e: BlockEventView,
    g: spec_fn(Seq<u32>) -> u32,
    stop: spec_fn(u32) -> bool,
    drafts: spec_fn(Seq<u32>, int) -> Seq<u32>,
)
    requires
        v.wf(),
        v.expects(e),
        v.sound(g, drafts),
        v.faithful(e, g, stop, drafts),
    ensures
        v.moved(e).wf(),
        v.moved(e).sound(g, drafts),
        v.moved(e).outcome(g, stop, drafts) == v.outcome(g, stop, drafts),
{
    match e {
        BlockEventView::Drafted(_) => {},
        BlockEventView::Verified { picks, stops } => {
            let j = generate::accepted(v.block, picks);
            let end = generate::emit_end(stops, v.left, 0, j);
            generate::lemma_accepted(v.block, picks, 0);
            generate::lemma_emit_end(stops, v.left, 0, j);
            if end > j {
                assert(end == j + 1);
                assert(picks[j] == g(v.hist + v.block.take(j + 1)));
                let now = v.hist + v.block.take(end);
                assert(!goes_on(v.left - end, v.pos + end, v.size, v.ctx) ==> block_out(
                    g,
                    stop,
                    drafts,
                    v.size,
                    now,
                    v.pos + end,
                    v.ctx,
                    v.left - end,
                ) == now);
            }
        },
    }
}

/// The run behind a sequence of events.
pub open spec fn block_after(v: BlockView, es: Seq<BlockEventView>) -> BlockView
    decreases es.len(),
{
    if es.len() == 0 {
        v
    } else {
        block_after(v, es.drop_last()).moved(es.last())
    }
}

/// Each of the events answers what was asked, and is faithful.
pub open spec fn blocks_faithful(
    v: BlockView,
    es: Seq<BlockEventView>,
    g: spec_fn(Seq<u32>) -> u32,
    stop: spec_fn(u32) -> bool,
    drafts: spec_fn(Seq<u32>, int) -> Seq<u32>,
) -> bool
    decreases es.len(),
{
    es.len() == 0 || {
        let before = block_after(v, es.drop_last());
        &&& blocks_faithful(v, es.drop_last(), g, stop, drafts)
        &&& before.expects(es.last())
        &&& before.faithful(es.last(), g, stop, drafts)
    }
}

proof fn lemma_block_after(
    v: BlockView,
    es: Seq<BlockEventView>,
    g: spec_fn(Seq<u32>) -> u32,
    stop: spec_fn(u32) -> bool,
    drafts: spec_fn(Seq<u32>, int) -> Seq<u32>,
)
    requires
        v.wf(),
        v.sound(g, drafts),
        blocks_faithful(v, es, g, stop, drafts),
    ensures
        block_after(v, es).wf(),
        block_after(v, es).sound(g, drafts),
        block_after(v, es).outcome(g, stop, drafts) == v.outcome(g, stop, drafts),
    decreases es.len(),
{
    if es.len() > 0 {
        lemma_block_after(v, es.drop_last(), g, stop, drafts);
        block_step_keeps_the_outcome(block_after(v, es.drop_last()), es.last(), g, stop, drafts);
    }
}

/// A run that has ended has shown the tokens of its rounds, and no others.
pub proof fn ended_block_run_has_shown_its_rounds(
    prompt: Seq<u32>,
    pos: int,
    ctx: int,
    limit: int,
    size: int,
    es: Seq<BlockEventView>,
    g: spec_fn(Seq<u32>) -> u32,
    stop: spec_fn(u32) -> bool,
    drafts: spec_fn(Seq<u32>, int) -> Seq<u32>,
)
    requires
        blocks_faithful(
            block_start(prompt, pos, g(prompt), ctx, limit, size),
            es,
            g,
            stop,
            drafts,
        ),
        block_after(block_start(prompt, pos, g(prompt), ctx, limit, size), es).phase
            == BlockPhase::Over,
    ensures
        block_after(block_start(prompt, pos, g(prompt), ctx, limit, size), es).hist == block_out(
            g,
            stop,
            drafts,
            size,
            prompt,
            pos,
            ctx,
            limit,
        ),
{
    lemma_block_after(
        block_start(prompt, pos, g(prompt), ctx, limit, size),
        es,
        g,
        stop,
        drafts,
    );
}

/// A run ends: every block that is verified takes tokens of those that may
/// still be shown, or ends it.
pub proof fn every_block_nears_the_end(v: BlockView, e: BlockEventView)
    requires
        v.wf(),
        v.left >= 0,
        v.expects(e),
    ensures
        0 <= v.moved(e).left <= v.left,
        e is Verified ==> v.moved(e).phase == BlockPhase::Over || v.moved(e).left < v.left,
{
    match e {
        BlockEventView::Drafted(_) => {},
        BlockEventView::Verified { picks, stops } => {
            let j = generate::accepted(v.block, picks);
            generate::lemma_accepted(v.block, picks, 0);
            generate::lemma_emit_end(stops, v.left, 0, j);
        },
    }
}

} // verus!
