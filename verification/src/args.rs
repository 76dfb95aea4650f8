//! The command line: options, their values, and what they set.
//!
//! Reading is resumable. A prompt file and a real number are the caller's to
//! read, so the reader stops there, hands the text over, and goes on once the
//! value has been given back.

use vstd::prelude::*;

use crate::text;
use crate::words;

verus! {

/// Every option the program knows.
#[derive(Clone, Copy, Debug, PartialEq, Eq, Structural)]
pub enum Opt {
    Model,
    Prompt,
    PromptFile,
    Tokens,
    Count,
    Ctx,
    NoBos,
    Bos,
    DumpLogits,
    TeacherForce,
    DecodeConsistency,
    RowsConsistency,
    Capture,
    Chat,
    System,
    Temp,
    TopP,
    MinP,
    Seed,
    JinjaChat,
    Version,
    Help,
}

/// The option an argument names.
pub open spec fn opt_named(s: Seq<char>) -> Option<Opt> {
    if s == "-m"@ {
        Some(Opt::Model)
    } else if s == "-p"@ {
        Some(Opt::Prompt)
    } else if s == "-f"@ || s == "--prompt-file"@ {
        Some(Opt::PromptFile)
    } else if s == "--tokens"@ {
        Some(Opt::Tokens)
    } else if s == "-n"@ {
        Some(Opt::Count)
    } else if s == "--ctx"@ {
        Some(Opt::Ctx)
    } else if s == "--no-bos"@ {
        Some(Opt::NoBos)
    } else if s == "--bos"@ {
        Some(Opt::Bos)
    } else if s == "--dump-logits"@ {
        Some(Opt::DumpLogits)
    } else if s == "--teacher-force"@ {
        Some(Opt::TeacherForce)
    } else if s == "--decode-consistency"@ {
        Some(Opt::DecodeConsistency)
    } else if s == "--rows-consistency"@ {
        Some(Opt::RowsConsistency)
    } else if s == "--dspark-capture"@ {
        Some(Opt::Capture)
    } else if s == "--chat"@ {
        Some(Opt::Chat)
    } else if s == "--system"@ {
        Some(Opt::System)
    } else if s == "--temp"@ {
        Some(Opt::Temp)
    } else if s == "--top-p"@ {
        Some(Opt::TopP)
    } else if s == "--min-p"@ {
        Some(Opt::MinP)
    } else if s == "--seed"@ {
        Some(Opt::Seed)
    } else if s == "--jinja-chat"@ {
        Some(Opt::JinjaChat)
    } else if s == "-V"@ || s == "--version"@ {
        Some(Opt::Version)
    } else if s == "-h"@ || s == "--help"@ {
        Some(Opt::Help)
    } else {
        None
    }
}

/// The option an argument names.
pub fn opt_of(s: &str) -> (r: Option<Opt>)
    ensures
        r == opt_named(s@),
{
    if text::same(s, "-m") {
        Some(Opt::Model)
    } else if text::same(s, "-p") {
        Some(Opt::Prompt)
    } else if text::same(s, "-f") || text::same(s, "--prompt-file") {
        Some(Opt::PromptFile)
    } else if text::same(s, "--tokens") {
        Some(Opt::Tokens)
    } else if text::same(s, "-n") {
        Some(Opt::Count)
    } else if text::same(s, "--ctx") {
        Some(Opt::Ctx)
    } else if text::same(s, "--no-bos") {
        Some(Opt::NoBos)
    } else if text::same(s, "--bos") {
        Some(Opt::Bos)
    } else if text::same(s, "--dump-logits") {
        Some(Opt::DumpLogits)
    } else if text::same(s, "--teacher-force") {
        Some(Opt::TeacherForce)
    } else if text::same(s, "--decode-consistency") {
        Some(Opt::DecodeConsistency)
    } else if text::same(s, "--rows-consistency") {
        Some(Opt::RowsConsistency)
    } else if text::same(s, "--dspark-capture") {
        Some(Opt::Capture)
    } else if text::same(s, "--chat") {
        Some(Opt::Chat)
    } else if text::same(s, "--system") {
        Some(Opt::System)
    } else if text::same(s, "--temp") {
        Some(Opt::Temp)
    } else if text::same(s, "--top-p") {
        Some(Opt::TopP)
    } else if text::same(s, "--min-p") {
        Some(Opt::MinP)
    } else if text::same(s, "--seed") {
        Some(Opt::Seed)
    } else if text::same(s, "--jinja-chat") {
        Some(Opt::JinjaChat)
    } else if text::same(s, "-V") || text::same(s, "--version") {
        Some(Opt::Version)
    } else if text::same(s, "-h") || text::same(s, "--help") {
        Some(Opt::Help)
    } else {
        None
    }
}

/// The option's name in messages, where it takes a value.
pub open spec fn value_name(o: Opt) -> Option<Seq<char>> {
    match o {
        Opt::Model => Some("-m"@),
        Opt::Prompt => Some("-p"@),
        Opt::PromptFile => Some("--prompt-file"@),
        Opt::Tokens => Some("--tokens"@),
        Opt::Count => Some("-n"@),
        Opt::Ctx => Some("--ctx"@),
        Opt::DumpLogits => Some("--dump-logits"@),
        Opt::DecodeConsistency => Some("--decode-consistency"@),
        Opt::RowsConsistency => Some("--rows-consistency"@),
        Opt::Capture => Some("--dspark-capture"@),
        Opt::System => Some("--system"@),
        Opt::Temp => Some("--temp"@),
        Opt::TopP => Some("--top-p"@),
        Opt::MinP => Some("--min-p"@),
        Opt::Seed => Some("--seed"@),
        Opt::NoBos | Opt::Bos | Opt::TeacherForce | Opt::Chat | Opt::JinjaChat | Opt::Version
        | Opt::Help => None,
    }
}

fn name_of(o: Opt) -> (r: Option<&'static str>)
    ensures
        match r {
            Some(n) => value_name(o) == Some(n@),
            None => value_name(o) is None,
        },
{
    match o {
        Opt::Model => Some("-m"),
        Opt::Prompt => Some("-p"),
        Opt::PromptFile => Some("--prompt-file"),
        Opt::Tokens => Some("--tokens"),
        Opt::Count => Some("-n"),
        Opt::Ctx => Some("--ctx"),
        Opt::DumpLogits => Some("--dump-logits"),
        Opt::DecodeConsistency => Some("--decode-consistency"),
        Opt::RowsConsistency => Some("--rows-consistency"),
        Opt::Capture => Some("--dspark-capture"),
        Opt::System => Some("--system"),
        Opt::Temp => Some("--temp"),
        Opt::TopP => Some("--top-p"),
        Opt::MinP => Some("--min-p"),
        Opt::Seed => Some("--seed"),
        Opt::NoBos => None,
        Opt::Bos => None,
        Opt::TeacherForce => None,
        Opt::Chat => None,
        Opt::JinjaChat => None,
        Opt::Version => None,
        Opt::Help => None,
    }
}

/// What the command line asks for. Reals are kept as float bits.
pub struct Args {
    pub model: Option<String>,
    pub prompt: Option<String>,
    pub tokens: Option<String>,
    /// How many tokens are wanted, where the command line says.
    pub n_predict: Option<usize>,
    pub ctx: u32,
    /// Forced on or off; otherwise the model decides.
    pub bos: Option<bool>,
    pub dump_logits: Option<String>,
    pub teacher_force: bool,
    pub decode_consistency: Option<usize>,
    pub rows_consistency: Option<usize>,
    pub capture: Option<String>,
    pub chat: bool,
    pub system: Option<String>,
    pub temp: Option<u32>,
    pub top_p: Option<u32>,
    pub min_p: u32,
    pub seed: u64,
    pub jinja: bool,
}

/// The same with texts as their characters.
pub struct ArgsView {
    pub model: Option<Seq<char>>,
    pub prompt: Option<Seq<char>>,
    pub tokens: Option<Seq<char>>,
    pub n_predict: Option<nat>,
    pub ctx: nat,
    pub bos: Option<bool>,
    pub dump_logits: Option<Seq<char>>,
    pub teacher_force: bool,
    pub decode_consistency: Option<nat>,
    pub rows_consistency: Option<nat>,
    pub capture: Option<Seq<char>>,
    pub chat: bool,
    pub system: Option<Seq<char>>,
    pub temp: Option<u32>,
    pub top_p: Option<u32>,
    pub min_p: u32,
    pub seed: nat,
    pub jinja: bool,
}

pub open spec fn text_of(s: Option<String>) -> Option<Seq<char>> {
    match s {
        Some(t) => Some(t@),
        None => None,
    }
}

pub open spec fn count_of(n: Option<usize>) -> Option<nat> {
    match n {
        Some(k) => Some(k as nat),
        None => None,
    }
}

impl View for Args {
    type V = ArgsView;

    open spec fn view(&self) -> ArgsView {
        ArgsView {
            model: text_of(self.model),
            prompt: text_of(self.prompt),
            tokens: text_of(self.tokens),
            n_predict: count_of(self.n_predict),
            ctx: self.ctx as nat,
            bos: self.bos,
            dump_logits: text_of(self.dump_logits),
            teacher_force: self.teacher_force,
            decode_consistency: count_of(self.decode_consistency),
            rows_consistency: count_of(self.rows_consistency),
            capture: text_of(self.capture),
            chat: self.chat,
            system: text_of(self.system),
            temp: self.temp,
            top_p: self.top_p,
            min_p: self.min_p,
            seed: self.seed as nat,
            jinja: self.jinja,
        }
    }
}

/// What holds before the first argument; `jinja` comes from the environment.
pub open spec fn defaults(jinja: bool) -> ArgsView {
    ArgsView {
        model: None,
        prompt: None,
        tokens: None,
        n_predict: None,
        ctx: 2048,
        bos: None,
        dump_logits: None,
        teacher_force: false,
        decode_consistency: None,
        rows_consistency: None,
        capture: None,
        chat: false,
        system: None,
        temp: None,
        top_p: None,
        min_p: 0,
        seed: 42,
        jinja,
    }
}

/// How wide a number is read.
#[derive(Clone, Copy, Debug, PartialEq, Eq, Structural)]
pub enum Width {
    Word,
    Bits32,
    Bits64,
}

/// Why a command line is refused.
pub enum ArgFault {
    /// An option at the end lacks its value.
    NoValue { name: String },
    /// A value is not a number of this width.
    NotANumber { value: String, width: Width },
    /// No option has this name.
    Unknown { arg: String },
}

/// What the reader wants next.
pub enum Event {
    /// Read the prompt from this file, and give it back.
    PromptFile { path: String },
    /// Read this real number for the option, and give its bits back.
    Real { opt: Opt, value: String },
    ShowVersion,
    ShowHelp,
    Refused(ArgFault),
    /// Every argument has been read.
    Done,
}

/// The same with texts as their characters.
pub enum EventView {
    PromptFile { path: Seq<char> },
    Real { opt: Opt, value: Seq<char> },
    ShowVersion,
    ShowHelp,
    NoValue { name: Seq<char> },
    NotANumber { value: Seq<char>, width: Width },
    Unknown { arg: Seq<char> },
    Done,
}

impl View for Event {
    type V = EventView;

    open spec fn view(&self) -> EventView {
        match *self {
            Event::PromptFile { path } => EventView::PromptFile { path: path@ },
            Event::Real { opt, value } => EventView::Real { opt, value: value@ },
            Event::ShowVersion => EventView::ShowVersion,
            Event::ShowHelp => EventView::ShowHelp,
            Event::Refused(ArgFault::NoValue { name }) => EventView::NoValue { name: name@ },
            Event::Refused(ArgFault::NotANumber { value, width }) => EventView::NotANumber {
                value: value@,
                width,
            },
            Event::Refused(ArgFault::Unknown { arg }) => EventView::Unknown { arg: arg@ },
            Event::Done => EventView::Done,
        }
    }
}

/// An option without a value: what it sets, or where it ends the reading.
pub open spec fn flagged(got: ArgsView, o: Opt) -> (ArgsView, Option<EventView>) {
    match o {
        Opt::NoBos => (ArgsView { bos: Some(false), ..got }, None),
        Opt::Bos => (ArgsView { bos: Some(true), ..got }, None),
        Opt::TeacherForce => (ArgsView { teacher_force: true, ..got }, None),
        Opt::Chat => (ArgsView { chat: true, ..got }, None),
        Opt::JinjaChat => (ArgsView { jinja: true, ..got }, None),
        Opt::Version => (got, Some(EventView::ShowVersion)),
        _ => (got, Some(EventView::ShowHelp)),
    }
}

pub open spec fn not_a_number(v: Seq<char>, width: Width) -> Option<EventView> {
    Some(EventView::NotANumber { value: v, width })
}

/// An option with its value.
pub open spec fn valued(got: ArgsView, o: Opt, v: Seq<char>) -> (ArgsView, Option<EventView>) {
    match o {
        Opt::Model => (ArgsView { model: Some(v), ..got }, None),
        Opt::Prompt => (ArgsView { prompt: Some(v), ..got }, None),
        Opt::PromptFile => (got, Some(EventView::PromptFile { path: v })),
        Opt::Tokens => (ArgsView { tokens: Some(v), ..got }, None),
        Opt::Count => match text::number_upto(v, usize::MAX as nat) {
            Some(n) => (ArgsView { n_predict: Some(n), ..got }, None),
            None => (got, not_a_number(v, Width::Word)),
        },
        Opt::Ctx => match text::number_upto(v, u32::MAX as nat) {
            Some(n) => (ArgsView { ctx: n, ..got }, None),
            None => (got, not_a_number(v, Width::Bits32)),
        },
        Opt::DumpLogits => (ArgsView { dump_logits: Some(v), ..got }, None),
        Opt::DecodeConsistency => match text::number_upto(v, usize::MAX as nat) {
            Some(n) => (ArgsView { decode_consistency: Some(n), ..got }, None),
            None => (got, not_a_number(v, Width::Word)),
        },
        Opt::RowsConsistency => match text::number_upto(v, usize::MAX as nat) {
            Some(n) => (ArgsView { rows_consistency: Some(n), ..got }, None),
            None => (got, not_a_number(v, Width::Word)),
        },
        Opt::Capture => (ArgsView { capture: Some(v), ..got }, None),
        Opt::System => (ArgsView { system: Some(v), ..got }, None),
        Opt::Seed => match text::number_upto(v, u64::MAX as nat) {
            Some(n) => (ArgsView { seed: n, ..got }, None),
            None => (got, not_a_number(v, Width::Bits64)),
        },
        _ => (got, Some(EventView::Real { opt: o, value: v })),
    }
}

/// One option, from argument `at` on: where the next one starts, what has
/// been set, and what stops the reading.
pub open spec fn one_option(args: Seq<Seq<char>>, at: int, got: ArgsView) -> (
    int,
    ArgsView,
    Option<EventView>,
) {
    match opt_named(args[at]) {
        None => (at + 1, got, Some(EventView::Unknown { arg: args[at] })),
        Some(o) => match value_name(o) {
            None => (at + 1, flagged(got, o).0, flagged(got, o).1),
            Some(name) => if at + 1 < args.len() {
                (at + 2, valued(got, o, args[at + 1]).0, valued(got, o, args[at + 1]).1)
            } else {
                (at + 1, got, Some(EventView::NoValue { name }))
            },
        },
    }
}

/// Read on from argument `at` until something stops the reading.
pub open spec fn read_on(args: Seq<Seq<char>>, at: int, got: ArgsView) -> (int, ArgsView, EventView)
    decreases args.len() - at,
{
    if at >= args.len() {
        (at, got, EventView::Done)
    } else {
        let (to, now, stop) = one_option(args, at, got);
        match stop {
            Some(e) => (to, now, e),
            None => if to > at {
                read_on(args, to, now)
            } else {
                (to, now, EventView::Done)
            },
        }
    }
}

/// The characters of every argument.
pub open spec fn arg_texts(args: Seq<String>) -> Seq<Seq<char>> {
    Seq::new(args.len(), |i: int| args[i]@)
}

/// A command line, read up to `at`.
pub struct Reader {
    pub args: Vec<String>,
    pub at: usize,
    pub got: Args,
}

impl Reader {
    pub open spec fn wf(&self) -> bool {
        self.at <= self.args@.len()
    }

    /// Start at the first argument behind the program's name.
    pub fn new(args: Vec<String>, jinja: bool) -> (r: Reader)
        ensures
            r.wf(),
            r.args == args,
            r.at == 0,
            r.got@ == defaults(jinja),
    {
        Reader {
            args,
            at: 0,
            got: Args {
                model: None,
                prompt: None,
                tokens: None,
                n_predict: None,
                ctx: 2048,
                bos: None,
                dump_logits: None,
                teacher_force: false,
                decode_consistency: None,
                rows_consistency: None,
                capture: None,
                chat: false,
                system: None,
                temp: None,
                top_p: None,
                min_p: 0,
                seed: 42,
                jinja,
            },
        }
    }

    /// Read on until something stops the reading.
    pub fn next(&mut self) -> (e: Event)
        requires
            old(self).wf(),
        ensures
            final(self).wf(),
            final(self).args == old(self).args,
            (final(self).at as int, final(self).got@, e@) == read_on(
                arg_texts(old(self).args@),
                old(self).at as int,
                old(self).got@,
            ),
    {
        let ghost args = arg_texts(self.args@);
        let ghost goal = read_on(args, self.at as int, self.got@);
        while self.at < self.args.len()
            invariant
                self.wf(),
                self.args == old(self).args,
                args == arg_texts(self.args@),
                goal == read_on(args, self.at as int, self.got@),
                goal == read_on(args, old(self).at as int, old(self).got@),
            decreases self.args@.len() - self.at,
        {
            let at: usize = self.at;
            let a = String::from_str(self.args[at].as_str());
            let ghost was = self.got@;
            assert(a@ == args[at as int]);
            let o = match opt_of(a.as_str()) {
                Some(o) => o,
                None => {
                    self.at = at + 1;
                    return Event::Refused(ArgFault::Unknown { arg: a });
                },
            };
            self.at = at + 1;
            match name_of(o) {
                None => {
                    match self.flag(o) {
                        Some(e) => {
                            return e;
                        },
                        None => {},
                    }
                },
                Some(name) => {
                    if at + 1 >= self.args.len() {
                        return Event::Refused(ArgFault::NoValue { name: String::from_str(name) });
                    }
                    let v = String::from_str(self.args[at + 1].as_str());
                    assert(v@ == args[at + 1]);
                    self.at = at + 2;
                    match self.value(o, v) {
                        Some(e) => {
                            return e;
                        },
                        None => {},
                    }
                },
            }
        }
        Event::Done
    }

    fn flag(&mut self, o: Opt) -> (e: Option<Event>)
        requires
            value_name(o) is None,
        ensures
            final(self).args == old(self).args,
            final(self).at == old(self).at,
            final(self).got@ == flagged(old(self).got@, o).0,
            match e {
                Some(x) => flagged(old(self).got@, o).1 == Some(x@),
                None => flagged(old(self).got@, o).1 is None,
            },
    {
        match o {
            Opt::NoBos => self.got.bos = Some(false),
            Opt::Bos => self.got.bos = Some(true),
            Opt::TeacherForce => self.got.teacher_force = true,
            Opt::Chat => self.got.chat = true,
            Opt::JinjaChat => self.got.jinja = true,
            Opt::Version => {
                return Some(Event::ShowVersion);
            },
            _ => {
                return Some(Event::ShowHelp);
            },
        }
        None
    }

    fn value(&mut self, o: Opt, v: String) -> (e: Option<Event>)
        requires
            value_name(o) is Some,
        ensures
            final(self).args == old(self).args,
            final(self).at == old(self).at,
            final(self).got@ == valued(old(self).got@, o, v@).0,
            match e {
                Some(x) => valued(old(self).got@, o, v@).1 == Some(x@),
                None => valued(old(self).got@, o, v@).1 is None,
            },
    {
        match o {
            Opt::Model => self.got.model = Some(v),
            Opt::Prompt => self.got.prompt = Some(v),
            Opt::PromptFile => {
                return Some(Event::PromptFile { path: v });
            },
            Opt::Tokens => self.got.tokens = Some(v),
            Opt::Count => match text::parse_usize(v.as_str()) {
                Some(n) => self.got.n_predict = Some(n),
                None => {
                    return Some(refuse_number(v, Width::Word));
                },
            },
            Opt::Ctx => match words::parse_u32(v.as_str()) {
                Some(n) => self.got.ctx = n,
                None => {
                    return Some(refuse_number(v, Width::Bits32));
                },
            },
            Opt::DumpLogits => self.got.dump_logits = Some(v),
            Opt::DecodeConsistency => match text::parse_usize(v.as_str()) {
                Some(n) => self.got.decode_consistency = Some(n),
                None => {
                    return Some(refuse_number(v, Width::Word));
                },
            },
            Opt::RowsConsistency => match text::parse_usize(v.as_str()) {
                Some(n) => self.got.rows_consistency = Some(n),
                None => {
                    return Some(refuse_number(v, Width::Word));
                },
            },
            Opt::Capture => self.got.capture = Some(v),
            Opt::System => self.got.system = Some(v),
            Opt::Seed => match text::parse_u64(v.as_str()) {
                Some(n) => self.got.seed = n,
                None => {
                    return Some(refuse_number(v, Width::Bits64));
                },
            },
            _ => {
                return Some(Event::Real { opt: o, value: v });
            },
        }
        None
    }

    /// The prompt that a file held.
    pub fn give_prompt(&mut self, prompt: String)
        ensures
            final(self).args == old(self).args,
            final(self).at == old(self).at,
            final(self).got@ == (ArgsView { prompt: Some(prompt@), ..old(self).got@ }),
    {
        self.got.prompt = Some(prompt);
    }

    /// The bits of the real number read for an option.
    pub fn give_real(&mut self, o: Opt, bits: u32)
        ensures
            final(self).args == old(self).args,
            final(self).at == old(self).at,
            final(self).got@ == real_given(old(self).got@, o, bits),
    {
        match o {
            Opt::Temp => self.got.temp = Some(bits),
            Opt::TopP => self.got.top_p = Some(bits),
            Opt::MinP => self.got.min_p = bits,
            _ => {},
        }
    }
}

/// What a real number sets.
pub open spec fn real_given(got: ArgsView, o: Opt, bits: u32) -> ArgsView {
    match o {
        Opt::Temp => ArgsView { temp: Some(bits), ..got },
        Opt::TopP => ArgsView { top_p: Some(bits), ..got },
        Opt::MinP => ArgsView { min_p: bits, ..got },
        _ => got,
    }
}

fn refuse_number(value: String, width: Width) -> (e: Event)
    ensures
        Some(e@) == not_a_number(value@, width),
{
    Event::Refused(ArgFault::NotANumber { value, width })
}

/// An option that does not stop the reading acts on what was set before it,
/// and the rest is read on from there.
pub proof fn reading_is_left_to_right(args: Seq<Seq<char>>, at: int, got: ArgsView)
    requires
        0 <= at < args.len(),
        one_option(args, at, got).2 is None,
    ensures
        read_on(args, at, got) == read_on(
            args,
            one_option(args, at, got).0,
            one_option(args, at, got).1,
        ),
{
}

/// A version or help request stops the reading: what follows it is not
/// looked at.
pub proof fn help_ends_the_reading(
    args: Seq<Seq<char>>,
    other: Seq<Seq<char>>,
    at: int,
    got: ArgsView,
)
    requires
        0 <= at < args.len(),
        at < other.len(),
        args[at] == other[at],
        opt_named(args[at]) == Some(Opt::Help) || opt_named(args[at]) == Some(Opt::Version),
    ensures
        read_on(args, at, got) == read_on(other, at, got),
{
}

/// The message for a refused command line, where the library words it: a
/// number's own reader words the rest.
pub fn fault_message(f: &ArgFault) -> (m: Option<String>)
    ensures
        match (*f, m) {
            (ArgFault::NoValue { name }, Some(s)) => s@ == name@ + " needs a value"@,
            (ArgFault::Unknown { arg }, Some(s)) => s@ == "unknown arg "@ + arg@ + ", try --help"@,
            (ArgFault::NotANumber { .. }, None) => true,
            _ => false,
        },
{
    match f {
        ArgFault::NoValue { name } => {
            let mut s = String::from_str(name.as_str());
            s.append(" needs a value");
            Some(s)
        },
        ArgFault::Unknown { arg } => {
            let mut s = String::from_str("unknown arg ");
            s.append(arg.as_str());
            s.append(", try --help");
            Some(s)
        },
        ArgFault::NotANumber { .. } => None,
    }
}

} // verus!
