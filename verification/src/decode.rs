//! A decoding run as a machine: it says what to do next, is told how that
//! went, and shows the tokens of its rounds.

use vstd::prelude::*;

use crate::generate;
use crate::generate::{Run, Speculation, Turn};

verus! {

/// What a run waits for.
#[derive(Clone, Copy, Debug, PartialEq, Eq, Structural)]
pub enum Phase {
    /// The first choice of a speculating run.
    First,
    /// Whether it was cancelled.
    Poll,
    /// A choice behind the tokens so far.
    Choose,
    /// The last token, to be run and not shown.
    Last,
    /// Drafts behind the token just shown.
    Draft,
    /// The token just shown, run alone.
    Alone,
    /// The token just shown, run with drafts behind it.
    Chain,
    /// Nothing: it has ended.
    Over,
}

/// What is to be done for a run.
#[derive(Clone, Copy, Debug, PartialEq, Eq, Structural)]
pub enum Ask {
    /// Say whether the run was cancelled.
    Poll,
    /// Choose a token from the last logits.
    Choose,
    /// Run the pending token; nothing is read behind it.
    RunLast,
    /// Run the pending token.
    Run,
    /// Run the pending token, and choose the one behind it.
    RunAndChoose,
    /// Draft what may follow the pending token.
    Draft,
    /// Run the chain, and choose behind each of its tokens.
    Verify,
    /// The run has ended at this position.
    End(u32),
}

/// How it went.
pub enum Event {
    Polled(bool),
    /// A choice, and whether it ends a run.
    Chosen { pick: u32, last: bool },
    Ran,
    Drafted(Vec<u32>),
    /// Choices behind each token of the chain, which of the chain's tokens
    /// end a run, and which of the choices do.
    Verified { picks: Vec<u32>, stops: Vec<bool>, ends: Vec<bool> },
}

/// The same over sequences.
pub enum EventView {
    Polled(bool),
    Chosen { pick: u32, last: bool },
    Ran,
    Drafted(Seq<u32>),
    Verified { picks: Seq<u32>, stops: Seq<bool>, ends: Seq<bool> },
}

impl View for Event {
    type V = EventView;

    open spec fn view(&self) -> EventView {
        match *self {
            Event::Polled(c) => EventView::Polled(c),
            Event::Chosen { pick, last } => EventView::Chosen { pick, last },
            Event::Ran => EventView::Ran,
            Event::Drafted(d) => EventView::Drafted(d@),
            Event::Verified { picks, stops, ends } => EventView::Verified {
                picks: picks@,
                stops: stops@,
                ends: ends@,
            },
        }
    }
}

/// A run in progress.
pub struct Decode {
    pub run: Run,
    pub how: Speculation,
    /// The pending token ends the run.
    pub stops: bool,
    /// The pending token and its drafts, from the latest round that had any.
    pub chain: Vec<u32>,
    /// Drafts that the latest chain got accepted.
    pub accepted: usize,
    pub phase: Phase,
}

/// A run as mathematics: the tokens shown so far behind the prompt, and how
/// many more may be.
pub struct DecodeView {
    pub how: Speculation,
    pub hist: Seq<u32>,
    pub left: int,
    pub pos: int,
    pub ctx: int,
    pub next: u32,
    pub stops: bool,
    pub chain: Seq<u32>,
    pub accepted: int,
    pub phase: Phase,
}

impl View for Decode {
    type V = DecodeView;

    open spec fn view(&self) -> DecodeView {
        DecodeView {
            how: self.how,
            hist: self.run.hist@,
            left: self.run.left(),
            pos: self.run.pos as int,
            ctx: self.run.ctx as int,
            next: self.run.next,
            stops: self.stops,
            chain: self.chain@,
            accepted: self.accepted as int,
            phase: self.phase,
        }
    }
}

/// Positions that must be left behind a token for its round to go on.
pub open spec fn margin_of(how: Speculation) -> int {
    if how == Speculation::Layer {
        2
    } else {
        1
    }
}

impl DecodeView {
    /// What holds of every run.
    pub open spec fn wf(&self) -> bool {
        &&& self.how matches Speculation::Ngram(d) ==> 1 <= d <= 15
        &&& self.phase == Phase::Poll || self.phase == Phase::Choose ==> self.left > 0
        &&& self.phase == Phase::Draft || self.phase == Phase::Alone || self.phase == Phase::Chain
            ==> {
            &&& self.pos + margin_of(self.how) < self.ctx
            &&& self.hist.len() > 0
            &&& self.hist.last() == self.next
        }
        &&& self.phase == Phase::Chain ==> {
            &&& self.chain.len() >= 1
            &&& self.chain[0] == self.next
            &&& self.pos + self.chain.len() <= self.ctx
        }
    }

    /// What is to be done for the run.
    pub open spec fn ask(&self) -> Ask {
        match self.phase {
            Phase::First => Ask::Choose,
            Phase::Poll => Ask::Poll,
            Phase::Choose => Ask::Choose,
            Phase::Last => Ask::RunLast,
            Phase::Draft => Ask::Draft,
            Phase::Alone => if self.how == Speculation::Off {
                Ask::Run
            } else {
                Ask::RunAndChoose
            },
            Phase::Chain => Ask::Verify,
            Phase::Over => Ask::End(self.pos as u32),
        }
    }

    /// The event answers what was asked.
    pub open spec fn expects(&self, e: EventView) -> bool {
        match e {
            EventView::Polled(_) => self.phase == Phase::Poll,
            EventView::Chosen { .. } => self.phase == Phase::First || self.phase == Phase::Choose
                || (self.phase == Phase::Alone && self.how != Speculation::Off),
            EventView::Ran => {
                ||| self.phase == Phase::Last && self.pos < u32::MAX
                ||| self.phase == Phase::Alone && self.how == Speculation::Off
            },
            EventView::Drafted(d) => self.phase == Phase::Draft && self.pos + 1 + d.len()
                < self.ctx,
            EventView::Verified { picks, stops, ends } => {
                &&& self.phase == Phase::Chain
                &&& picks.len() == self.chain.len()
                &&& stops.len() == self.chain.len()
                &&& ends.len() == self.chain.len()
            },
        }
    }

    /// Before a round: at the limit the run is over.
    pub open spec fn topped(self) -> DecodeView {
        DecodeView {
            phase: if self.left <= 0 {
                Phase::Over
            } else {
                Phase::Poll
            },
            ..self
        }
    }

    /// The pending token is looked at: it ends the run, or is shown.
    pub open spec fn judged(self) -> DecodeView {
        if self.stops || self.pos + margin_of(self.how) >= self.ctx {
            DecodeView { phase: Phase::Last, ..self }
        } else {
            let hist = self.hist.push(self.next);
            let shown = DecodeView { hist, left: self.left - 1, ..self };
            match self.how {
                Speculation::Off => DecodeView { phase: Phase::Alone, ..shown },
                Speculation::Ngram(depth) => {
                    let d = generate::ngram_drafts(depth as int, self.ctx)(hist, self.pos);
                    if d.len() == 0 {
                        DecodeView { phase: Phase::Alone, ..shown }
                    } else {
                        DecodeView {
                            phase: Phase::Chain,
                            chain: generate::chain_of(self.next, d),
                            ..shown
                        }
                    }
                },
                Speculation::Layer => DecodeView { phase: Phase::Draft, ..shown },
            }
        }
    }

    /// The run behind an event.
    pub open spec fn moved(self, e: EventView) -> DecodeView {
        match e {
            EventView::Polled(cancelled) => if cancelled {
                DecodeView { phase: Phase::Over, ..self }
            } else if self.how == Speculation::Off {
                DecodeView { phase: Phase::Choose, ..self }
            } else {
                self.judged()
            },
            EventView::Chosen { pick, last } => {
                let chosen = DecodeView { next: pick, stops: last, ..self };
                match self.phase {
                    Phase::First => chosen.topped(),
                    Phase::Choose => chosen.judged(),
                    _ => (DecodeView { pos: self.pos + 1, ..chosen }).topped(),
                }
            },
            EventView::Ran => {
                let ran = DecodeView { pos: self.pos + 1, ..self };
                if self.phase == Phase::Last {
                    DecodeView { phase: Phase::Over, ..ran }
                } else {
                    ran.topped()
                }
            },
            EventView::Drafted(d) => DecodeView {
                phase: Phase::Chain,
                chain: generate::chain_of(self.next, d),
                ..self
            },
            EventView::Verified { picks, stops, ends } => {
                let j = generate::accepted(self.chain, picks);
                let end = generate::emit_end(stops, self.left, 1, j);
                let settled = DecodeView {
                    hist: self.hist + self.chain.subrange(1, end),
                    left: self.left - (end - 1),
                    pos: self.pos + j + 1,
                    next: picks[j],
                    stops: ends[j],
                    accepted: j,
                    ..self
                };
                if end <= j {
                    DecodeView { phase: Phase::Over, ..settled }
                } else {
                    settled.topped()
                }
            },
        }
    }
}

impl Decode {
    pub open spec fn wf(&self) -> bool {
        &&& self.run.wf()
        &&& self@.wf()
    }

    /// A run behind its prompt, which was run up to `pos`.
    pub fn new(prompt: Vec<u32>, pos: u32, ctx: u32, limit: usize, how: Speculation) -> (d: Decode)
        requires
            how matches Speculation::Ngram(n) ==> 1 <= n <= 15,
        ensures
            d.wf(),
            d@ == started(prompt@, pos as int, ctx as int, limit as int, how),
    {
        let run = Run::new(prompt, pos, 0, ctx, limit);
        let phase: Phase = match how {
            Speculation::Off => if limit == 0 {
                Phase::Over
            } else {
                Phase::Poll
            },
            _ => Phase::First,
        };
        Decode { run, how, stops: false, chain: Vec::new(), accepted: 0, phase }
    }

    /// What is to be done for the run.
    pub fn ask(&self) -> (a: Ask)
        ensures
            a == self@.ask(),
    {
        match self.phase {
            Phase::First => Ask::Choose,
            Phase::Poll => Ask::Poll,
            Phase::Choose => Ask::Choose,
            Phase::Last => Ask::RunLast,
            Phase::Draft => Ask::Draft,
            Phase::Alone => match self.how {
                Speculation::Off => Ask::Run,
                _ => Ask::RunAndChoose,
            },
            Phase::Chain => Ask::Verify,
            Phase::Over => Ask::End(self.run.pos),
        }
    }

    fn top(&mut self)
        requires
            old(self).run.wf(),
            old(self)@.how matches Speculation::Ngram(n) ==> 1 <= n <= 15,
        ensures
            final(self).wf(),
            final(self)@ == old(self)@.topped(),
    {
        self.phase = if self.run.over() {
            Phase::Over
        } else {
            Phase::Poll
        };
    }

    fn judge(&mut self)
        requires
            old(self).run.wf(),
            old(self)@.left > 0,
            old(self)@.how matches Speculation::Ngram(n) ==> 1 <= n <= 15,
        ensures
            final(self).wf(),
            final(self)@ == old(self)@.judged(),
    {
        let turn: Turn = self.run.turn(self.stops, generate::margin(self.how));
        match turn {
            Turn::Emit => {},
            _ => {
                self.phase = Phase::Last;
                return;
            },
        }
        self.run.emit();
        match self.how {
            Speculation::Off => {
                self.phase = Phase::Alone;
            },
            Speculation::Ngram(depth) => {
                let mut d = generate::ngram_draft(&self.run.hist, depth);
                proof {
                    generate::lemma_draft_len(self.run.hist@, depth as int);
                }
                if generate::drafts_fit(self.run.pos, d.len(), self.run.ctx) {
                    self.chain = Vec::new();
                    self.chain.push(self.run.next);
                    self.chain.append(&mut d);
                    assert(self.chain@ =~= generate::chain_of(
                        self.run.next,
                        generate::draft_of(self.run.hist@, depth as int),
                    ));
                    self.phase = Phase::Chain;
                } else {
                    self.phase = Phase::Alone;
                }
            },
            Speculation::Layer => {
                self.phase = Phase::Draft;
            },
        }
    }

    /// Takes an event in, and says what is to be done then.
    pub fn step(&mut self, e: Event) -> (a: Ask)
        requires
            old(self).wf(),
            old(self)@.expects(e@),
        ensures
            final(self).wf(),
            final(self)@ == old(self)@.moved(e@),
            a == final(self)@.ask(),
    {
        match e {
            Event::Polled(cancelled) => {
                if cancelled {
                    self.phase = Phase::Over;
                } else {
                    match self.how {
                        Speculation::Off => {
                            self.phase = Phase::Choose;
                        },
                        _ => self.judge(),
                    }
                }
            },
            Event::Chosen { pick, last } => {
                self.stops = last;
                match self.phase {
                    Phase::First => {
                        self.run.choose_next(pick);
                        self.top();
                    },
                    Phase::Choose => {
                        self.run.choose_next(pick);
                        self.judge();
                    },
                    _ => {
                        self.run.advance(pick);
                        self.top();
                    },
                }
            },
            Event::Ran => {
                self.run.forwarded();
                match self.phase {
                    Phase::Last => {
                        self.phase = Phase::Over;
                    },
                    _ => self.top(),
                }
            },
            Event::Drafted(drafts) => {
                let ghost d0 = drafts@;
                let mut d = drafts;
                self.chain = Vec::new();
                self.chain.push(self.run.next);
                self.chain.append(&mut d);
                assert(self.chain@ =~= generate::chain_of(self.run.next, d0));
                self.phase = Phase::Chain;
            },
            Event::Verified { picks, stops, ends } => {
                let s = self.run.settle(&self.chain, &picks, &stops);
                self.accepted = s.accepted;
                self.stops = ends[s.accepted];
                if s.finished {
                    self.phase = Phase::Over;
                } else {
                    self.top();
                }
            },
        }
        self.ask()
    }
}

/// A run before its first event.
pub open spec fn started(prompt: Seq<u32>, pos: int, ctx: int, limit: int, how: Speculation) -> DecodeView {
    DecodeView {
        how,
        hist: prompt,
        left: limit,
        pos,
        ctx,
        next: 0,
        stops: false,
        chain: Seq::empty(),
        accepted: 0,
        phase: if how != Speculation::Off {
            Phase::First
        } else if limit == 0 {
            Phase::Over
        } else {
            Phase::Poll
        },
    }
}

/// The drafts of a run that speculates in this way: none, those of
/// repetition, or whatever the draft layer makes.
pub open spec fn drafts_as(
    how: Speculation,
    ctx: int,
    drafts: spec_fn(Seq<u32>, int) -> Seq<u32>,
) -> bool {
    match how {
        Speculation::Off => forall|h: Seq<u32>, p: int| (#[trigger] drafts(h, p)).len() == 0,
        Speculation::Ngram(depth) => drafts == generate::ngram_drafts(depth as int, ctx),
        Speculation::Layer => true,
    }
}

impl DecodeView {
    /// The event tells of a run that was not cancelled, of a model that
    /// chooses by `g`, of tokens that end a run by `stop`, and of drafts by
    /// `drafts`.
    pub open spec fn faithful(
        &self,
        e: EventView,
        g: spec_fn(Seq<u32>) -> u32,
        stop: spec_fn(u32) -> bool,
        drafts: spec_fn(Seq<u32>, int) -> Seq<u32>,
    ) -> bool {
        match e {
            EventView::Polled(cancelled) => !cancelled,
            EventView::Chosen { pick, last } => pick == g(self.hist) && last == stop(pick),
            EventView::Ran => true,
            EventView::Drafted(d) => d == drafts(self.hist, self.pos),
            EventView::Verified { picks, stops, ends } => {
                &&& picks == generate::picks_of(g, self.hist.drop_last(), self.chain)
                &&& stops == generate::stops_of(stop, self.chain)
                &&& ends == generate::stops_of(stop, picks)
            },
        }
    }

    /// What the run knows of its pending token is so.
    pub open spec fn sound(
        &self,
        g: spec_fn(Seq<u32>) -> u32,
        stop: spec_fn(u32) -> bool,
        drafts: spec_fn(Seq<u32>, int) -> Seq<u32>,
    ) -> bool {
        &&& self.phase == Phase::Poll && self.how != Speculation::Off ==> {
            &&& self.next == g(self.hist)
            &&& self.stops == stop(self.next)
        }
        &&& self.phase == Phase::Chain ==> self.chain == generate::chain_of(
            self.next,
            drafts(self.hist, self.pos),
        )
    }

    /// What a round that has shown its first token leaves in the end.
    pub open spec fn chain_outcome(
        &self,
        g: spec_fn(Seq<u32>) -> u32,
        stop: spec_fn(u32) -> bool,
        drafts: spec_fn(Seq<u32>, int) -> Seq<u32>,
    ) -> Seq<u32> {
        let hist = self.hist.drop_last();
        let chain = generate::chain_of(self.next, drafts(self.hist, self.pos));
        let picks = generate::picks_of(g, hist, chain);
        let j = generate::accepted(chain, picks);
        let end = generate::emit_end(generate::stops_of(stop, chain), self.left, 1, j);
        if end <= j {
            hist + chain.take(end)
        } else {
            generate::run_out(
                g,
                stop,
                drafts,
                margin_of(self.how),
                hist + chain.take(end),
                self.pos + end,
                self.ctx,
                self.left - (end - 1),
            )
        }
    }

    /// All that the run will have shown in the end, prompt included.
    pub open spec fn outcome(
        &self,
        g: spec_fn(Seq<u32>) -> u32,
        stop: spec_fn(u32) -> bool,
        drafts: spec_fn(Seq<u32>, int) -> Seq<u32>,
    ) -> Seq<u32> {
        match self.phase {
            Phase::First | Phase::Poll | Phase::Choose => generate::run_out(
                g,
                stop,
                drafts,
                margin_of(self.how),
                self.hist,
                self.pos,
                self.ctx,
                self.left,
            ),
            Phase::Last | Phase::Over => self.hist,
            Phase::Alone => generate::run_out(
                g,
                stop,
                drafts,
                margin_of(self.how),
                self.hist,
                self.pos + 1,
                self.ctx,
                self.left,
            ),
            Phase::Draft | Phase::Chain => self.chain_outcome(g, stop, drafts),
        }
    }
}

proof fn lemma_judged(
    v: DecodeView,
    g: spec_fn(Seq<u32>) -> u32,
    stop: spec_fn(u32) -> bool,
    drafts: spec_fn(Seq<u32>, int) -> Seq<u32>,
)
    requires
        v.left > 0,
        v.next == g(v.hist),
        v.stops == stop(v.next),
        drafts_as(v.how, v.ctx, drafts),
    ensures
        v.judged().sound(g, stop, drafts),
        v.judged().outcome(g, stop, drafts) == generate::run_out(
            g,
            stop,
            drafts,
            margin_of(v.how),
            v.hist,
            v.pos,
            v.ctx,
            v.left,
        ),
{
    let t = v.next;
    if !(v.stops || v.pos + margin_of(v.how) >= v.ctx) {
        let h = v.hist.push(t);
        assert(h.drop_last() =~= v.hist);
        let d = drafts(h, v.pos);
        let chain = generate::chain_of(t, d);
        if d.len() == 0 {
            let picks = generate::picks_of(g, v.hist, chain);
            assert(chain.len() == 1);
            assert(generate::accepted(chain, picks) == 0);
            assert(generate::emit_end(generate::stops_of(stop, chain), v.left - 1, 1, 0) == 1);
            assert(v.hist + chain.take(1) =~= h);
        }
    }
}

/// A faithful event changes nothing of what a run will have shown in the
/// end.
pub proof fn step_keeps_the_outcome(
    v: DecodeView,
    e: EventView,
    g: spec_fn(Seq<u32>) -> u32,
    stop: spec_fn(u32) -> bool,
    drafts: spec_fn(Seq<u32>, int) -> Seq<u32>,
)
    requires
        v.wf(),
        v.expects(e),
        v.sound(g, stop, drafts),
        v.faithful(e, g, stop, drafts),
        drafts_as(v.how, v.ctx, drafts),
    ensures
        v.moved(e).wf(),
        v.moved(e).how == v.how,
        v.moved(e).ctx == v.ctx,
        v.moved(e).sound(g, stop, drafts),
        v.moved(e).outcome(g, stop, drafts) == v.outcome(g, stop, drafts),
{
    match e {
        EventView::Polled(_) => {
            if v.how != Speculation::Off {
                lemma_judged(v, g, stop, drafts);
                lemma_judged_wf(v);
            }
        },
        EventView::Chosen { pick, last } => {
            if v.phase == Phase::Choose {
                let chosen = DecodeView { next: pick, stops: last, ..v };
                lemma_judged(chosen, g, stop, drafts);
                lemma_judged_wf(chosen);
            }
        },
        EventView::Ran => {},
        EventView::Drafted(_) => {},
        EventView::Verified { picks, stops, ends } => {
            let c = v.chain;
            let h0 = v.hist.drop_last();
            let j = generate::accepted(c, picks);
            let end = generate::emit_end(stops, v.left, 1, j);
            generate::lemma_accepted(c, picks, 0);
            generate::lemma_emit_end(stops, v.left, 1, j);
            assert(v.hist + c.subrange(1, end) =~= h0 + c.take(end));
            if end > j {
                assert(end == j + 1);
                assert(picks[j] == g(h0 + c.take(j + 1)));
                assert(ends[j] == stop(picks[j]));
            }
        },
    }
}

proof fn lemma_judged_wf(v: DecodeView)
    requires
        v.how matches Speculation::Ngram(d) ==> 1 <= d <= 15,
        v.left > 0,
    ensures
        v.judged().wf(),
        v.judged().how == v.how,
        v.judged().ctx == v.ctx,
{
}

/// The run behind a sequence of events.
pub open spec fn after(v: DecodeView, es: Seq<EventView>) -> DecodeView
    decreases es.len(),
{
    if es.len() == 0 {
        v
    } else {
        after(v, es.drop_last()).moved(es.last())
    }
}

/// Each of the events answers what was asked, and is faithful.
pub open spec fn all_faithful(
    v: DecodeView,
    es: Seq<EventView>,
    g: spec_fn(Seq<u32>) -> u32,
    stop: spec_fn(u32) -> bool,
    drafts: spec_fn(Seq<u32>, int) -> Seq<u32>,
) -> bool
    decreases es.len(),
{
    es.len() == 0 || {
        let before = after(v, es.drop_last());
        &&& all_faithful(v, es.drop_last(), g, stop, drafts)
        &&& before.expects(es.last())
        &&& before.faithful(es.last(), g, stop, drafts)
    }
}

proof fn lemma_after(
    v: DecodeView,
    es: Seq<EventView>,
    g: spec_fn(Seq<u32>) -> u32,
    stop: spec_fn(u32) -> bool,
    drafts: spec_fn(Seq<u32>, int) -> Seq<u32>,
)
    requires
        v.wf(),
        v.sound(g, stop, drafts),
        drafts_as(v.how, v.ctx, drafts),
        all_faithful(v, es, g, stop, drafts),
    ensures
        after(v, es).wf(),
        after(v, es).how == v.how,
        after(v, es).ctx == v.ctx,
        after(v, es).sound(g, stop, drafts),
        after(v, es).outcome(g, stop, drafts) == v.outcome(g, stop, drafts),
    decreases es.len(),
{
    if es.len() > 0 {
        lemma_after(v, es.drop_last(), g, stop, drafts);
        step_keeps_the_outcome(after(v, es.drop_last()), es.last(), g, stop, drafts);
    }
}

/// A run that has ended without being cancelled has shown, behind its
/// prompt, the tokens of its rounds and no others.
pub proof fn ended_run_has_shown_its_rounds(
    prompt: Seq<u32>,
    pos: int,
    ctx: int,
    limit: int,
    how: Speculation,
    es: Seq<EventView>,
    g: spec_fn(Seq<u32>) -> u32,
    stop: spec_fn(u32) -> bool,
    drafts: spec_fn(Seq<u32>, int) -> Seq<u32>,
)
    requires
        limit >= 0,
        how matches Speculation::Ngram(d) ==> 1 <= d <= 15,
        drafts_as(how, ctx, drafts),
        all_faithful(started(prompt, pos, ctx, limit, how), es, g, stop, drafts),
        after(started(prompt, pos, ctx, limit, how), es).phase == Phase::Over,
    ensures
        after(started(prompt, pos, ctx, limit, how), es).hist == generate::run_out(
            g,
            stop,
            drafts,
            margin_of(how),
            prompt,
            pos,
            ctx,
            limit,
        ),
{
    lemma_after(started(prompt, pos, ctx, limit, how), es, g, stop, drafts);
}

/// However a run speculates, where the context has room for every token
/// that may be shown it shows the stream of plain decoding.
pub proof fn ended_run_has_shown_the_stream(
    prompt: Seq<u32>,
    pos: int,
    ctx: int,
    limit: int,
    how: Speculation,
    es: Seq<EventView>,
    g: spec_fn(Seq<u32>) -> u32,
    stop: spec_fn(u32) -> bool,
    drafts: spec_fn(Seq<u32>, int) -> Seq<u32>,
)
    requires
        limit >= 0,
        how matches Speculation::Ngram(d) ==> 1 <= d <= 15,
        drafts_as(how, ctx, drafts),
        how == Speculation::Layer ==> generate::chains_fit(drafts, ctx),
        pos + limit + 2 <= ctx,
        all_faithful(started(prompt, pos, ctx, limit, how), es, g, stop, drafts),
        after(started(prompt, pos, ctx, limit, how), es).phase == Phase::Over,
    ensures
        after(started(prompt, pos, ctx, limit, how), es).hist == prompt + generate::stream(
            g,
            stop,
            prompt,
            pos,
            ctx,
            limit,
        ),
{
    ended_run_has_shown_its_rounds(prompt, pos, ctx, limit, how, es, g, stop, drafts);
    generate::run_emits_the_stream(g, stop, drafts, margin_of(how), prompt, pos, ctx, limit);
}

proof fn lemma_run_out_grows(
    g: spec_fn(Seq<u32>) -> u32,
    stop: spec_fn(u32) -> bool,
    drafts: spec_fn(Seq<u32>, int) -> Seq<u32>,
    margin: int,
    hist: Seq<u32>,
    pos: int,
    ctx: int,
    left: int,
)
    ensures
        hist.is_prefix_of(generate::run_out(g, stop, drafts, margin, hist, pos, ctx, left)),
    decreases left,
{
    let t = g(hist);
    if generate::turn_of(left, stop(t), pos, margin, ctx) == Turn::Emit {
        let chain = generate::chain_of(t, drafts(hist.push(t), pos));
        let picks = generate::picks_of(g, hist, chain);
        let stops = generate::stops_of(stop, chain);
        let j = generate::accepted(chain, picks);
        let e = generate::emit_end(stops, left - 1, 1, j);
        generate::lemma_accepted(chain, picks, 0);
        generate::lemma_emit_end(stops, left - 1, 1, j);
        assert(hist.is_prefix_of(hist + chain.take(e)));
        if e > j {
            lemma_run_out_grows(
                g,
                stop,
                drafts,
                margin,
                hist + chain.take(e),
                pos + e,
                ctx,
                left - e,
            );
        }
    }
}

/// Whatever a run has shown so far, and so whatever a cancelled one has
/// shown, is the beginning of what it shows when it is left to end.
pub proof fn shown_so_far_starts_the_outcome(
    v: DecodeView,
    g: spec_fn(Seq<u32>) -> u32,
    stop: spec_fn(u32) -> bool,
    drafts: spec_fn(Seq<u32>, int) -> Seq<u32>,
)
    requires
        v.wf(),
    ensures
        v.hist.is_prefix_of(v.outcome(g, stop, drafts)),
        v.moved(EventView::Polled(true)).hist == v.hist,
{
    let margin = margin_of(v.how);
    match v.phase {
        Phase::Last | Phase::Over => {},
        Phase::First | Phase::Poll | Phase::Choose => {
            lemma_run_out_grows(g, stop, drafts, margin, v.hist, v.pos, v.ctx, v.left);
        },
        Phase::Alone => {
            lemma_run_out_grows(g, stop, drafts, margin, v.hist, v.pos + 1, v.ctx, v.left);
        },
        Phase::Draft | Phase::Chain => {
            let hist = v.hist.drop_last();
            let chain = generate::chain_of(v.next, drafts(v.hist, v.pos));
            let picks = generate::picks_of(g, hist, chain);
            let stops = generate::stops_of(stop, chain);
            let j = generate::accepted(chain, picks);
            let end = generate::emit_end(stops, v.left, 1, j);
            generate::lemma_accepted(chain, picks, 0);
            generate::lemma_emit_end(stops, v.left, 1, j);
            let now = hist + chain.take(end);
            assert(chain[0] == v.next);
            assert(v.hist.is_prefix_of(now));
            if end > j {
                lemma_run_out_grows(
                    g,
                    stop,
                    drafts,
                    margin,
                    now,
                    v.pos + end,
                    v.ctx,
                    v.left - (end - 1),
                );
            }
        },
    }
}

/// Most events a run takes before it has ended.
pub open spec fn events_left(v: DecodeView) -> int {
    8 * v.left + match v.phase {
        Phase::First => 7int,
        Phase::Draft => 6,
        Phase::Chain => 5,
        Phase::Alone => 5,
        Phase::Poll => 4,
        Phase::Choose => 3,
        Phase::Last => 1,
        Phase::Over => 0,
    }
}

/// A run ends: every event that answers what was asked, whatever it tells,
/// brings it nearer to its end.
pub proof fn every_event_nears_the_end(v: DecodeView, e: EventView)
    requires
        v.wf(),
        v.left >= 0,
        v.expects(e),
    ensures
        v.moved(e).left >= 0,
        0 <= events_left(v.moved(e)) < events_left(v),
{
    match e {
        EventView::Verified { picks, stops, ends } => {
            let j = generate::accepted(v.chain, picks);
            generate::lemma_accepted(v.chain, picks, 0);
            generate::lemma_emit_end(stops, v.left, 1, j);
        },
        _ => {},
    }
}

} // verus!
