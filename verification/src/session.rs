//! What a run of the program does: where its prompt comes from, which mode
//! it is in, how a one-shot decode ends, and how a chat keeps its turns.

use vstd::prelude::*;

use crate::args::Args;
use crate::bytes;
use crate::text;
use crate::words;

verus! {

/// A letter's code without its case; other characters as they are.
pub open spec fn folded(c: char) -> int {
    if 65 <= c as int <= 90 {
        c as int + 32
    } else {
        c as int
    }
}

/// Equal texts, letters of the basic alphabet in either case.
pub open spec fn same_folded(a: Seq<char>, b: Seq<char>) -> bool {
    a.len() == b.len() && forall|i: int| 0 <= i < a.len() ==> folded(#[trigger] a[i]) == folded(b[i])
}

fn fold(c: char) -> (n: u32)
    ensures
        n == folded(c),
{
    let n: u32 = c as u32;
    if 65 <= n && n <= 90 {
        n + 32
    } else {
        n
    }
}

fn alike(a: &str, b: &str) -> (r: bool)
    ensures
        r == same_folded(a@, b@),
{
    let v = text::chars_of(a);
    let w = text::chars_of(b);
    if v.len() != w.len() {
        return false;
    }
    let mut i: usize = 0;
    while i < v.len()
        invariant
            i <= v@.len(),
            v@ == a@,
            w@ == b@,
            v@.len() == w@.len(),
            forall|k: int| 0 <= k < i ==> folded(#[trigger] a@[k]) == folded(b@[k]),
        decreases v@.len() - i,
    {
        if fold(v[i]) != fold(w[i]) {
            assert(folded(a@[i as int]) != folded(b@[i as int]));
            return false;
        }
        i = i + 1;
    }
    true
}

/// A setting asks for the chat template unless it is absent, empty, zero,
/// or says no.
pub open spec fn template_wanted(setting: Option<&str>) -> bool {
    match setting {
        None => false,
        Some(v) => v@ != "0"@ && v@.len() > 0 && !same_folded(v@, "false"@) && !same_folded(
            v@,
            "off"@,
        ),
    }
}

/// Whether the environment asks for the chat template.
pub fn jinja_on(setting: Option<&str>) -> (r: bool)
    ensures
        r == template_wanted(setting),
{
    match setting {
        None => false,
        Some(v) => {
            let chars = text::chars_of(v);
            !text::same(v, "0") && chars.len() > 0 && !alike(v, "false") && !alike(v, "off")
        },
    }
}

/// Whether the chat template may only be looked for locally: always when no
/// template was asked for.
pub fn template_offline(jinja: bool, offline: bool) -> (r: bool)
    ensures
        r == (!jinja || offline),
{
    !jinja || offline
}

/// End of the list item that starts at `i`.
pub open spec fn comma_after(s: Seq<char>, i: int) -> int
    decreases s.len() - i,
{
    if i >= s.len() || s[i] == ',' {
        i
    } else {
        comma_after(s, i + 1)
    }
}

proof fn lemma_comma_after(s: Seq<char>, i: int)
    requires
        0 <= i <= s.len(),
    ensures
        i <= comma_after(s, i) <= s.len(),
    decreases s.len() - i,
{
    if i < s.len() && s[i] != ',' {
        lemma_comma_after(s, i + 1);
    }
}

/// The items of a comma-separated list from `i` on, without white space
/// around them.
pub open spec fn items_from(s: Seq<char>, i: int) -> Seq<Seq<char>>
    decreases s.len() - i,
{
    if i > s.len() {
        Seq::empty()
    } else {
        let e = comma_after(s, i);
        if e < i || e >= s.len() {
            seq![words::trimmed(s.subrange(i, s.len() as int))]
        } else {
            seq![words::trimmed(s.subrange(i, e))] + items_from(s, e + 1)
        }
    }
}

/// The items of a comma-separated list.
pub open spec fn items(s: Seq<char>) -> Seq<Seq<char>> {
    items_from(s, 0)
}

/// The first item of `parts` that is no number up to `max`.
pub open spec fn first_bad(parts: Seq<Seq<char>>, max: nat) -> Option<Seq<char>>
    decreases parts.len(),
{
    if parts.len() == 0 {
        None
    } else if text::number_upto(parts[0], max) is None {
        Some(parts[0])
    } else {
        first_bad(parts.drop_first(), max)
    }
}

/// `ns` are the numbers the items say.
pub open spec fn says(parts: Seq<Seq<char>>, max: nat, ns: Seq<u64>) -> bool {
    &&& ns.len() == parts.len()
    &&& forall|i: int|
        0 <= i < parts.len() ==> text::number_upto(#[trigger] parts[i], max) == Some(ns[i] as nat)
}

fn span_text(s: &str, lo: usize, hi: usize) -> (r: String)
    requires
        lo <= hi <= s@.len(),
    ensures
        r@ == s@.subrange(lo as int, hi as int),
{
    String::from_str(s.substring_char(lo, hi))
}

/// Read a comma-separated list of numbers up to `max`; the first item that
/// is none comes back as it stands.
pub fn parse_list(s: &str, max: u64) -> (r: Result<Vec<u64>, String>)
    ensures
        match r {
            Ok(ns) => first_bad(items(s@), max as nat) is None && says(items(s@), max as nat, ns@),
            Err(bad) => first_bad(items(s@), max as nat) == Some(bad@),
        },
{
    let v = text::chars_of(s);
    let mut ns: Vec<u64> = Vec::new();
    let mut at: usize = 0;
    let ghost all = items(s@);
    assert(all.skip(0) =~= all);
    loop
        invariant
            v@ == s@,
            all == items(s@),
            at <= v@.len(),
            ns@.len() <= all.len(),
            items_from(s@, at as int) == all.skip(ns@.len() as int),
            first_bad(all, max as nat) == first_bad(all.skip(ns@.len() as int), max as nat),
            forall|i: int|
                0 <= i < ns@.len() ==> text::number_upto(#[trigger] all[i], max as nat) == Some(
                    ns@[i] as nat,
                ),
        decreases v@.len() - at,
    {
        let mut e: usize = at;
        while e < v.len() && v[e] != ','
            invariant
                v@ == s@,
                at <= e <= v@.len(),
                comma_after(s@, at as int) == comma_after(s@, e as int),
            decreases v@.len() - e,
        {
            e = e + 1;
        }
        proof {
            assert(comma_after(s@, at as int) == e);
            assert(s@.subrange(at as int, e as int) == v@.subrange(at as int, e as int));
        }
        let span = words::trim_span(&v, at, e);
        let ghost rest = all.skip(ns@.len() as int);
        let ghost item = words::trimmed(s@.subrange(at as int, e as int));
        proof {
            assert(rest.len() > 0 && rest[0] == item);
            assert(all[ns@.len() as int] == item);
            assert(rest.drop_first() =~= all.skip((ns@.len() + 1) as int));
        }
        match text::parse_span(&v, span.lo, span.hi) {
            Some(n) => {
                if n > max {
                    return Err(span_text(s, span.lo, span.hi));
                }
                ns.push(n);
            },
            None => {
                return Err(span_text(s, span.lo, span.hi));
            },
        }
        if e >= v.len() {
            proof {
                assert(rest =~= seq![item]);
                assert(all.skip(ns@.len() as int) =~= Seq::<Seq<char>>::empty());
                assert(ns@.len() == all.len());
            }
            return Ok(ns);
        }
        proof {
            assert(rest == seq![item] + items_from(s@, e + 1));
            assert(rest.drop_first() =~= items_from(s@, e + 1));
        }
        at = e + 1;
    }
}

/// Read exact token ids.
pub fn token_ids(s: &str) -> (r: Result<Vec<u32>, String>)
    ensures
        match r {
            Ok(ids) => first_bad(items(s@), u32::MAX as nat) is None && says(
                items(s@),
                u32::MAX as nat,
                ids@.map_values(|x: u32| x as u64),
            ),
            Err(bad) => first_bad(items(s@), u32::MAX as nat) == Some(bad@),
        },
{
    match parse_list(s, u32::MAX as u64) {
        Err(bad) => Err(bad),
        Ok(ns) => {
            let mut ids: Vec<u32> = Vec::new();
            let mut i: usize = 0;
            while i < ns.len()
                invariant
                    i <= ns@.len(),
                    ids@.len() == i,
                    says(items(s@), u32::MAX as nat, ns@),
                    forall|k: int| 0 <= k < i ==> (#[trigger] ids@[k]) as u64 == ns@[k],
                decreases ns@.len() - i,
            {
                assert(text::number_upto(items(s@)[i as int], u32::MAX as nat) is Some);
                ids.push(ns[i] as u32);
                i = i + 1;
            }
            assert(ids@.map_values(|x: u32| x as u64) =~= ns@);
            Ok(ids)
        },
    }
}

/// Read a list of layer numbers.
pub fn layer_ids(s: &str) -> (r: Result<Vec<usize>, String>)
    ensures
        match r {
            Ok(ids) => first_bad(items(s@), usize::MAX as nat) is None && says(
                items(s@),
                usize::MAX as nat,
                ids@.map_values(|x: usize| x as u64),
            ),
            Err(bad) => first_bad(items(s@), usize::MAX as nat) == Some(bad@),
        },
{
    match parse_list(s, usize::MAX as u64) {
        Err(bad) => Err(bad),
        Ok(ns) => {
            let mut ids: Vec<usize> = Vec::new();
            let mut i: usize = 0;
            while i < ns.len()
                invariant
                    i <= ns@.len(),
                    ids@.len() == i,
                    says(items(s@), usize::MAX as nat, ns@),
                    forall|k: int| 0 <= k < i ==> (#[trigger] ids@[k]) as u64 == ns@[k],
                decreases ns@.len() - i,
            {
                assert(text::number_upto(items(s@)[i as int], usize::MAX as nat) is Some);
                ids.push(ns[i] as usize);
                i = i + 1;
            }
            assert(ids@.map_values(|x: usize| x as u64) =~= ns@);
            Ok(ids)
        },
    }
}

/// The model's path, or why there is none.
pub fn model_path(model: Option<String>) -> (r: Result<String, &'static str>)
    ensures
        match model {
            Some(m) => r == Ok::<String, &'static str>(m),
            None => r matches Err(e) && e@ == "missing -m MODEL.gguf"@,
        },
{
    match model {
        Some(m) => Ok(m),
        None => Err("missing -m MODEL.gguf"),
    }
}

/// Where the prompt's tokens come from.
pub enum PromptPlan {
    /// Exactly these.
    Ids(Vec<u32>),
    /// Encode the prompt's text behind this first token.
    Encode { lead: Option<u32> },
}

/// Why there is no prompt.
pub enum PromptFault {
    /// An item of the token list is no token id.
    BadId { item: String },
    /// A first token is wanted and the model names none.
    NoLead,
    /// Neither text nor tokens were given.
    NoPrompt,
}

/// A prompt starts with the model's first token when forced on, or when
/// nothing is forced and the model adds it.
pub open spec fn wants_lead(bos: Option<bool>, add_bos: bool) -> bool {
    match bos {
        Some(b) => b,
        None => add_bos,
    }
}

/// Token ids win over text; text may need the model's first token.
pub fn plan_prompt(
    tokens: Option<&str>,
    has_text: bool,
    bos: Option<bool>,
    add_bos: bool,
    bos_id: Option<u32>,
) -> (r: Result<PromptPlan, PromptFault>)
    ensures
        match tokens {
            Some(t) => match r {
                Ok(PromptPlan::Ids(ids)) => first_bad(items(t@), u32::MAX as nat) is None && says(
                    items(t@),
                    u32::MAX as nat,
                    ids@.map_values(|x: u32| x as u64),
                ),
                Err(PromptFault::BadId { item }) => first_bad(items(t@), u32::MAX as nat) == Some(
                    item@,
                ),
                _ => false,
            },
            None => if !has_text {
                r == Err::<PromptPlan, PromptFault>(PromptFault::NoPrompt)
            } else if !wants_lead(bos, add_bos) {
                r == Ok::<PromptPlan, PromptFault>(PromptPlan::Encode { lead: None })
            } else if bos_id is None {
                r == Err::<PromptPlan, PromptFault>(PromptFault::NoLead)
            } else {
                r == Ok::<PromptPlan, PromptFault>(PromptPlan::Encode { lead: bos_id })
            },
        },
{
    match tokens {
        Some(t) => match token_ids(t) {
            Ok(ids) => Ok(PromptPlan::Ids(ids)),
            Err(item) => Err(PromptFault::BadId { item }),
        },
        None => {
            if !has_text {
                return Err(PromptFault::NoPrompt);
            }
            let wanted: bool = match bos {
                Some(b) => b,
                None => add_bos,
            };
            if !wanted {
                return Ok(PromptPlan::Encode { lead: None });
            }
            match bos_id {
                Some(id) => Ok(PromptPlan::Encode { lead: Some(id) }),
                None => Err(PromptFault::NoLead),
            }
        },
    }
}

/// The message for a missing prompt, where the library words it.
pub fn prompt_message(f: &PromptFault) -> (m: Option<&'static str>)
    ensures
        match f {
            PromptFault::BadId { .. } => m is None,
            PromptFault::NoLead => m matches Some(s) && s@ == "model has no BOS id"@,
            PromptFault::NoPrompt => m matches Some(s) && s@ == "need -p TEXT or --tokens IDS"@,
        },
{
    match f {
        PromptFault::BadId { .. } => None,
        PromptFault::NoLead => Some("model has no BOS id"),
        PromptFault::NoPrompt => Some("need -p TEXT or --tokens IDS"),
    }
}

/// The encoded prompt behind its first token.
pub fn with_lead(lead: Option<u32>, encoded: Vec<u32>) -> (ids: Vec<u32>)
    ensures
        ids@ == match lead {
            Some(id) => seq![id] + encoded@,
            None => encoded@,
        },
{
    match lead {
        None => encoded,
        Some(id) => {
            let mut ids: Vec<u32> = Vec::new();
            ids.push(id);
            let mut i: usize = 0;
            while i < encoded.len()
                invariant
                    i <= encoded@.len(),
                    ids@ =~= seq![id] + encoded@.take(i as int),
                decreases encoded@.len() - i,
            {
                ids.push(encoded[i]);
                i = i + 1;
            }
            assert(encoded@.take(i as int) =~= encoded@);
            ids
        },
    }
}

/// From here on a prompt is long.
pub const LONG_PROMPT: usize = 384;

/// Settings a long prompt changes: one large prefill chunk, paid for with
/// card cache.
#[derive(Clone, Copy, Debug, PartialEq, Eq, Structural)]
pub struct LongPrompt {
    pub batch: Option<usize>,
    pub dev_cache_gb: Option<u32>,
}

/// What a prompt of this length changes; a setting already made stays.
pub fn long_prompt(len: usize, batch_set: bool, cache_set: bool) -> (r: LongPrompt)
    ensures
        r.batch == (if len > LONG_PROMPT && !batch_set {
            Some(if len < 768 { len } else { 768usize })
        } else {
            None
        }),
        r.dev_cache_gb == (if len > LONG_PROMPT && !cache_set { Some(2u32) } else { None }),
{
    let long: bool = len > LONG_PROMPT;
    let batch: Option<usize> = if long && !batch_set {
        Some(if len < 768 { len } else { 768 })
    } else {
        None
    };
    let dev_cache_gb: Option<u32> = if long && !cache_set { Some(2) } else { None };
    LongPrompt { batch, dev_cache_gb }
}

/// The settings a draft model's state is made under.
pub struct DraftSettings {
    pub dev_cache_gb: String,
    pub batch: &'static str,
    pub cache_gb: &'static str,
    /// What to set the tiers to; none leaves them as they are.
    pub tiers: Option<&'static str>,
}

/// A draft gets small caches and no tiers, so that the model it drafts for
/// keeps the room; its card cache may be set, and it may keep its tiers.
pub fn draft_settings(dev_cache_gb: Option<&str>, resident: bool) -> (d: DraftSettings)
    ensures
        d.dev_cache_gb@ == (match dev_cache_gb {
            Some(v) => v@,
            None => "1"@,
        }),
        d.batch@ == "8"@,
        d.cache_gb@ == "2"@,
        match d.tiers {
            Some(t) => !resident && t@ == "off"@,
            None => resident,
        },
{
    DraftSettings {
        dev_cache_gb: match dev_cache_gb {
            Some(v) => String::from_str(v),
            None => String::from_str("1"),
        },
        batch: "8",
        cache_gb: "2",
        tiers: if resident { None } else { Some("off") },
    }
}

/// What a run does once the model is loaded.
#[derive(Clone, Copy, Debug, PartialEq, Eq, Structural)]
pub enum Mode {
    Chat,
    /// Full logit rows along the given tokens, to a file.
    TeacherDump,
    /// The likeliest tokens along the given ones.
    TeacherTop,
    Capture,
    Rows(usize),
    Decode(usize),
    /// Decode with a draft model of the same kind.
    DraftModel,
    /// Decode with a block draft.
    BlockDraft,
    /// Decode with the model's own drafts or repeated phrases.
    Speculate,
    /// Write the last logits of the prompt to a file.
    DumpLogits,
    Plain,
}

/// Facts that a run's mode follows from.
#[derive(Clone, Copy, Debug, PartialEq, Eq, Structural)]
pub struct Drafts {
    pub model: bool,
    pub block: bool,
    /// The model's own drafts, or repeated phrases, are switched on.
    pub own: bool,
}

/// The first that applies: a chat, a diagnosis, a speculative decode, and
/// then the plain one. Writing logits out rules speculation out.
pub open spec fn mode_of(a: &Args, d: Drafts) -> Mode {
    if a.chat {
        Mode::Chat
    } else if a.teacher_force {
        if a.dump_logits is Some {
            Mode::TeacherDump
        } else {
            Mode::TeacherTop
        }
    } else if a.capture is Some {
        Mode::Capture
    } else if a.rows_consistency is Some {
        Mode::Rows(a.rows_consistency->0)
    } else if a.decode_consistency is Some {
        Mode::Decode(a.decode_consistency->0)
    } else if a.dump_logits is Some {
        Mode::DumpLogits
    } else if d.model {
        Mode::DraftModel
    } else if d.block {
        Mode::BlockDraft
    } else if d.own {
        Mode::Speculate
    } else {
        Mode::Plain
    }
}

/// The mode of a run.
pub fn choose_mode(a: &Args, d: Drafts) -> (m: Mode)
    ensures
        m == mode_of(a, d),
{
    if a.chat {
        return Mode::Chat;
    }
    if a.teacher_force {
        return if a.dump_logits.is_some() { Mode::TeacherDump } else { Mode::TeacherTop };
    }
    if a.capture.is_some() {
        return Mode::Capture;
    }
    match a.rows_consistency {
        Some(r) => {
            return Mode::Rows(r);
        },
        None => {},
    }
    match a.decode_consistency {
        Some(n) => {
            return Mode::Decode(n);
        },
        None => {},
    }
    if a.dump_logits.is_some() {
        Mode::DumpLogits
    } else if d.model {
        Mode::DraftModel
    } else if d.block {
        Mode::BlockDraft
    } else if d.own {
        Mode::Speculate
    } else {
        Mode::Plain
    }
}

/// Whether the model's own drafts or repeated phrases are switched on.
pub fn own_drafts(mtp: Option<&str>, ngram_set: bool) -> (r: bool)
    ensures
        r == (ngram_set || (mtp is Some && mtp->0@ == "1"@)),
{
    let on: bool = match mtp {
        Some(v) => text::same(v, "1"),
        None => false,
    };
    on || ngram_set
}

/// A check over several rows needs at least two, and no more than tokens.
pub fn rows_allowed(r: usize, tokens: usize) -> (ok: Result<(), String>)
    ensures
        match ok {
            Ok(_) => 2 <= r <= tokens,
            Err(m) => !(2 <= r <= tokens) && m@ == "--rows-consistency needs 2..="@ + text::digits(
                tokens as nat,
            ) + " rows"@,
        },
{
    if r < 2 || r > tokens {
        let mut m = String::from_str("--rows-consistency needs 2..=");
        text::push_decimal(&mut m, tokens as u64);
        m.append(" rows");
        Err(m)
    } else {
        Ok(())
    }
}

/// Where a one-shot decode of `n` tokens ends, from position `start` on: no
/// later than the last position there is.
pub fn decode_end(start: u32, n: usize) -> (end: u32)
    ensures
        end == (if start + n > u32::MAX {
            u32::MAX as int
        } else {
            start + n
        }),
{
    let sum: u128 = start as u128 + n as u128;
    if sum > u32::MAX as u128 {
        u32::MAX
    } else {
        sum as u32
    }
}

/// What a one-shot decode does with its next token.
#[derive(Clone, Copy, Debug, PartialEq, Eq, Structural)]
pub enum PlainTurn {
    /// Nothing more is wanted, or the token ends the text.
    Stop,
    /// Show it, and stop: the context is used up.
    Last,
    /// Show it, and run the model on it.
    Go,
}

/// The turn at position `pos`; `ends` says that the token ends the text.
pub fn plain_turn(pos: u32, end: u32, ctx: u32, ends: bool) -> (t: PlainTurn)
    ensures
        t == (if pos >= end || ends {
            PlainTurn::Stop
        } else if pos >= ctx {
            PlainTurn::Last
        } else {
            PlainTurn::Go
        }),
{
    if pos >= end || ends {
        PlainTurn::Stop
    } else if pos >= ctx {
        PlainTurn::Last
    } else {
        PlainTurn::Go
    }
}

/// How many tokens a one-shot decode shows: the first that ends the text,
/// the count asked for, or the context ends it. `ends[i]` speaks of the
/// token at position `pos + i`.
pub open spec fn shown(ends: Seq<bool>, pos: int, end: int, ctx: int) -> int
    decreases ends.len(),
{
    if ends.len() == 0 || pos >= end || ends[0] {
        0
    } else if pos >= ctx {
        1
    } else {
        1 + shown(ends.drop_first(), pos + 1, end, ctx)
    }
}

/// A one-shot decode shows no more tokens than asked for, and no more than
/// one beyond the context.
pub proof fn plain_decode_is_bounded(ends: Seq<bool>, pos: int, end: int, ctx: int)
    requires
        pos <= end,
    ensures
        0 <= shown(ends, pos, end, ctx) <= end - pos,
        shown(ends, pos, end, ctx) <= ends.len(),
        shown(ends, pos, end, ctx) <= (if ctx > pos {
            ctx - pos + 1
        } else {
            1
        }),
        forall|i: int| 0 <= i < shown(ends, pos, end, ctx) ==> !ends[i],
    decreases ends.len(),
{
    if ends.len() > 0 && pos < end && !ends[0] && pos < ctx {
        let rest = ends.drop_first();
        plain_decode_is_bounded(rest, pos + 1, end, ctx);
        assert forall|i: int| 0 <= i < shown(ends, pos, end, ctx) implies !ends[i] by {
            if i > 0 {
                assert(!rest[i - 1]);
            }
        }
    }
}

/// The longest reply of a chat: what was asked for, else 1024 tokens.
pub fn reply_limit(n: Option<usize>) -> (limit: usize)
    ensures
        limit == (match n {
            Some(k) => k,
            None => 1024,
        }),
{
    match n {
        Some(k) => k,
        None => 1024,
    }
}

/// How many tokens a one-shot run shows: what was asked for, else 16.
pub fn run_limit(n: Option<usize>) -> (limit: usize)
    ensures
        limit == (match n {
            Some(k) => k,
            None => 16,
        }),
{
    match n {
        Some(k) => k,
        None => 16,
    }
}

/// The temperature and the nucleus of a chat, as float bits: what was asked
/// for, else what the model says, else 0.9 and 1.
pub fn chat_sampling(
    temp: Option<u32>,
    top_p: Option<u32>,
    model_temp: Option<u32>,
    model_top_p: Option<u32>,
) -> (r: (u32, u32))
    ensures
        r.0 == (match (temp, model_temp) {
            (Some(t), _) => t,
            (None, Some(t)) => t,
            (None, None) => 0x3f66_6666u32,
        }),
        r.1 == (match (top_p, model_top_p) {
            (Some(p), _) => p,
            (None, Some(p)) => p,
            (None, None) => 0x3f80_0000u32,
        }),
{
    let t: u32 = match (temp, model_temp) {
        (Some(t), _) => t,
        (None, Some(t)) => t,
        (None, None) => 0x3f66_6666,
    };
    let p: u32 = match (top_p, model_top_p) {
        (Some(p), _) => p,
        (None, Some(p)) => p,
        (None, None) => 0x3f80_0000,
    };
    (t, p)
}

/// Who said something.
#[derive(Clone, Copy, Debug, PartialEq, Eq, Structural)]
pub enum Role {
    System,
    User,
    Assistant,
}

pub open spec fn role_text(r: Role) -> Seq<char> {
    match r {
        Role::System => "system"@,
        Role::User => "user"@,
        Role::Assistant => "assistant"@,
    }
}

impl Role {
    /// The role's name in a template.
    pub fn name(&self) -> (s: &'static str)
        ensures
            s@ == role_text(*self),
    {
        match self {
            Role::System => "system",
            Role::User => "user",
            Role::Assistant => "assistant",
        }
    }
}

/// One message of a chat.
pub struct Message {
    pub role: Role,
    pub content: String,
}

/// The roles and contents of messages.
pub open spec fn said(h: Seq<Message>) -> Seq<(Role, Seq<char>)> {
    h.map_values(|m: Message| (m.role, m.content@))
}

/// How a turn's tokens are made.
#[derive(Clone, Copy, Debug, PartialEq, Eq, Structural)]
pub enum TurnPlan {
    /// Render the whole history through the template.
    Template,
    /// Write the turn with the model's markers, behind the prologue if it
    /// has not been sent.
    Markers { prologue: bool },
}

/// A chat between turns.
pub struct Chat {
    /// A template renders the turns.
    pub template: bool,
    pub system: Option<String>,
    pub history: Vec<Message>,
    /// No turn has been written with markers.
    pub first: bool,
    /// Tokens the model has seen.
    pub pos: u32,
}

impl Chat {
    pub open spec fn said(&self) -> Seq<(Role, Seq<char>)> {
        said(self.history@)
    }

    /// The system text that markers write, given the model's own.
    pub open spec fn system_for(&self, own: Option<Seq<char>>) -> Option<Seq<char>> {
        match self.system {
            Some(s) => Some(s@),
            None => own,
        }
    }

    /// The system text that markers write, given the model's own.
    pub fn system_text<'a>(&'a self, own: Option<&'a str>) -> (r: Option<&'a str>)
        ensures
            self.system_for(
                match own {
                    Some(t) => Some(t@),
                    None => None,
                },
            ) == match r {
                Some(t) => Some(t@),
                None => None,
            },
    {
        match &self.system {
            Some(s) => Some(s.as_str()),
            None => own,
        }
    }

    /// A chat before its first turn. With a template the history starts with
    /// the system text: the one given, else the model's own.
    pub fn new(template: bool, system: Option<String>, own: Option<String>) -> (c: Chat)
        ensures
            c.template == template,
            c.system == system,
            c.first,
            c.pos == 0,
            c.said() == (match (template, system, own) {
                (true, Some(s), _) => seq![(Role::System, s@)],
                (true, None, Some(s)) => seq![(Role::System, s@)],
                _ => Seq::<(Role, Seq<char>)>::empty(),
            }),
    {
        let mut history: Vec<Message> = Vec::new();
        if template {
            match &system {
                Some(s) => {
                    history.push(
                        Message { role: Role::System, content: String::from_str(s.as_str()) },
                    );
                },
                None => match own {
                    Some(s) => {
                        history.push(Message { role: Role::System, content: s });
                    },
                    None => {},
                },
            }
        }
        let c = Chat { template, system, history, first: true, pos: 0 };
        assert(c.said() =~= (match (template, system, own) {
            (true, Some(s), _) => seq![(Role::System, s@)],
            (true, None, Some(s)) => seq![(Role::System, s@)],
            _ => Seq::<(Role, Seq<char>)>::empty(),
        }));
        c
    }

    /// The user's line, without white space around it; an empty one leaves
    /// the chat.
    pub fn line(input: &str) -> (r: Option<String>)
        ensures
            match r {
                Some(s) => s@ == words::trimmed(input@) && s@.len() > 0,
                None => words::trimmed(input@).len() == 0,
            },
    {
        let v = text::chars_of(input);
        let span = words::trim_span(&v, 0, v.len());
        assert(v@.subrange(0, v@.len() as int) =~= input@);
        if span.lo == span.hi {
            None
        } else {
            Some(span_text(input, span.lo, span.hi))
        }
    }

    /// Take the user's line up. With a template it joins the history.
    pub fn begin(&mut self, line: &str) -> (p: TurnPlan)
        ensures
            final(self).template == old(self).template,
            final(self).system == old(self).system,
            final(self).pos == old(self).pos,
            if old(self).template {
                &&& p == TurnPlan::Template
                &&& final(self).said() == old(self).said().push((Role::User, line@))
                &&& final(self).first == old(self).first
            } else {
                &&& p == (TurnPlan::Markers { prologue: old(self).first })
                &&& final(self).said() == old(self).said()
                &&& !final(self).first
            },
    {
        if self.template {
            let ghost was = self.said();
            self.history.push(Message { role: Role::User, content: String::from_str(line) });
            assert(self.said() =~= was.push((Role::User, line@)));
            TurnPlan::Template
        } else {
            let prologue: bool = self.first;
            self.first = false;
            TurnPlan::Markers { prologue }
        }
    }

    /// The template rendered: every turn is prefilled from the start, so that
    /// earlier replies stand as the template writes them.
    pub fn rendered(&mut self)
        ensures
            final(self).template == old(self).template,
            final(self).system == old(self).system,
            final(self).history == old(self).history,
            final(self).first == old(self).first,
            final(self).pos == 0,
    {
        self.pos = 0;
    }

    /// The template failed: the user's line leaves the history, and markers
    /// write this turn.
    pub fn render_failed(&mut self) -> (p: TurnPlan)
        requires
            old(self).history@.len() > 0,
        ensures
            final(self).template == old(self).template,
            final(self).system == old(self).system,
            final(self).said() == old(self).said().drop_last(),
            p == (TurnPlan::Markers { prologue: old(self).first }),
            !final(self).first,
            final(self).pos == old(self).pos,
    {
        let ghost was = self.said();
        let _ = self.history.pop();
        assert(self.said() =~= was.drop_last());
        let prologue: bool = self.first;
        self.first = false;
        TurnPlan::Markers { prologue }
    }

    /// Whether a turn of `n` tokens leaves room for a reply.
    pub fn has_room(&self, n: usize, ctx: u32) -> (r: bool)
        ensures
            r == (self.pos + n + 2 < ctx),
    {
        (n as u128) + (self.pos as u128) + 2 < ctx as u128
    }

    /// The reply is complete, and the model has seen `pos` tokens. With a
    /// template it joins the history.
    pub fn replied(&mut self, reply: String, pos: u32)
        ensures
            final(self).template == old(self).template,
            final(self).system == old(self).system,
            final(self).first == old(self).first,
            final(self).pos == pos,
            final(self).said() == (if old(self).template {
                old(self).said().push((Role::Assistant, reply@))
            } else {
                old(self).said()
            }),
    {
        self.pos = pos;
        if self.template {
            let ghost was = self.said();
            let ghost text = reply@;
            self.history.push(Message { role: Role::Assistant, content: reply });
            assert(self.said() =~= was.push((Role::Assistant, text)));
        }
    }
}

/// A turn whose template failed leaves the history as it was before.
pub proof fn failed_render_keeps_history(
    before: Seq<(Role, Seq<char>)>,
    line: Seq<char>,
)
    ensures
        before.push((Role::User, line)).drop_last() == before,
{
    assert(before.push((Role::User, line)).drop_last() =~= before);
}

/// The message for a full context.
pub fn full_message(pos: u32, ctx: u32) -> (s: String)
    ensures
        s@ == "pulsar chat: context full ("@ + text::digits(pos as nat) + "/"@ + text::digits(
            ctx as nat,
        ) + "), restart to continue"@,
{
    let mut s = String::from_str("pulsar chat: context full (");
    text::push_decimal(&mut s, pos as u64);
    s.append("/");
    text::push_decimal(&mut s, ctx as u64);
    s.append("), restart to continue");
    s
}

/// The first `n` ids with commas between them.
pub open spec fn listed(ids: Seq<u32>, n: int) -> Seq<char>
    decreases n,
{
    if n <= 0 {
        Seq::empty()
    } else if n == 1 {
        text::digits(ids[0] as nat)
    } else {
        listed(ids, n - 1) + ", "@ + text::digits(ids[n - 1] as nat)
    }
}

/// A list of ids in brackets.
pub fn ids_text(ids: &Vec<u32>) -> (s: String)
    ensures
        s@ == "["@ + listed(ids@, ids@.len() as int) + "]"@,
{
    let mut s = String::from_str("[");
    let mut i: usize = 0;
    assert("["@ + listed(ids@, 0) =~= "["@);
    while i < ids.len()
        invariant
            i <= ids@.len(),
            s@ == "["@ + listed(ids@, i as int),
        decreases ids@.len() - i,
    {
        let ghost was = s@;
        if i > 0 {
            s.append(", ");
        }
        text::push_decimal(&mut s, ids[i] as u64);
        proof {
            let d = text::digits(ids@[i as int] as nat);
            if i > 0 {
                assert(was + ", "@ + d =~= "["@ + (listed(ids@, i as int) + ", "@ + d));
            } else {
                assert(was + d =~= "["@ + d);
            }
        }
        i = i + 1;
    }
    s.append("]");
    s
}

/// What the closing line says beside the cache figures.
pub open spec fn note_of(
    tier_hits: u64,
    cpu_hits: u64,
    accepted: u64,
    drafted: u64,
    percent: Seq<char>,
) -> Seq<char> {
    let tier = if tier_hits > 0 {
        ", tier "@ + text::digits(tier_hits as nat) + " resident slots"@
    } else {
        Seq::empty()
    };
    let cpu = if cpu_hits > 0 {
        ", cpu lane "@ + text::digits(cpu_hits as nat) + " experts"@
    } else {
        Seq::empty()
    };
    let drafts = if drafted > 0 {
        ", mtp "@ + drafts_of(accepted, drafted, percent)
    } else {
        Seq::empty()
    };
    tier + cpu + drafts
}

/// How many drafts were taken.
pub open spec fn drafts_of(accepted: u64, drafted: u64, percent: Seq<char>) -> Seq<char> {
    text::digits(accepted as nat) + "/"@ + text::digits(drafted as nat) + " drafts accepted ("@
        + percent + "%)"@
}

/// How many drafts were taken; `percent` is their share.
pub fn drafts_text(accepted: u64, drafted: u64, percent: &str) -> (s: String)
    ensures
        s@ == drafts_of(accepted, drafted, percent@),
{
    let mut s = String::new();
    text::push_decimal(&mut s, accepted);
    assert(s@ =~= text::digits(accepted as nat));
    s.append("/");
    text::push_decimal(&mut s, drafted);
    s.append(" drafts accepted (");
    s.append(percent);
    s.append("%)");
    s
}

/// What the closing line says of tiers, processor lanes and drafts, each
/// only where there was any.
pub fn tier_note(tier_hits: u64, cpu_hits: u64, accepted: u64, drafted: u64, percent: &str) -> (s:
    String)
    ensures
        s@ == note_of(tier_hits, cpu_hits, accepted, drafted, percent@),
{
    let mut s = String::new();
    let ghost none = Seq::<char>::empty();
    if tier_hits > 0 {
        s.append(", tier ");
        text::push_decimal(&mut s, tier_hits);
        s.append(" resident slots");
    }
    let ghost tier = if tier_hits > 0 {
        ", tier "@ + text::digits(tier_hits as nat) + " resident slots"@
    } else {
        none
    };
    assert(s@ =~= tier);
    if cpu_hits > 0 {
        s.append(", cpu lane ");
        text::push_decimal(&mut s, cpu_hits);
        s.append(" experts");
    }
    let ghost cpu = if cpu_hits > 0 {
        ", cpu lane "@ + text::digits(cpu_hits as nat) + " experts"@
    } else {
        none
    };
    assert(s@ =~= tier + cpu);
    if drafted > 0 {
        s.append(", mtp ");
        let d = drafts_text(accepted, drafted, percent);
        s.append(d.as_str());
        assert(s@ =~= tier + cpu + (", mtp "@ + drafts_of(accepted, drafted, percent@)));
    }
    assert(s@ =~= note_of(tier_hits, cpu_hits, accepted, drafted, percent@));
    s
}

/// The bytes of `n` values, four each.
pub open spec fn row_bytes(row: Seq<u32>, n: int) -> Seq<u8>
    decreases n,
{
    if n <= 0 {
        Seq::empty()
    } else {
        row_bytes(row, n - 1) + bytes::le_bytes(row[n - 1] as nat, 4)
    }
}

/// A row of logits as a dump holds it, the first with the row's length in
/// front; none when the length does not fit its field.
pub fn dump_row(row: &Vec<u32>, first: bool) -> (r: Option<Vec<u8>>)
    ensures
        match r {
            Some(v) => v@ == (if first {
                bytes::le_bytes(row@.len(), 4)
            } else {
                Seq::<u8>::empty()
            }) + row_bytes(row@, row@.len() as int),
            None => first && row@.len() > u32::MAX,
        },
        first && row@.len() > u32::MAX ==> r is None,
{
    let mut out: Vec<u8> = Vec::new();
    if first {
        if row.len() as u64 > u32::MAX as u64 {
            return None;
        }
        bytes::push_le(&mut out, row.len() as u64, 4);
    }
    let ghost head = out@;
    assert(head =~= (if first {
        bytes::le_bytes(row@.len(), 4)
    } else {
        Seq::<u8>::empty()
    }));
    let mut i: usize = 0;
    assert(head + row_bytes(row@, 0) =~= head);
    while i < row.len()
        invariant
            i <= row@.len(),
            out@ == head + row_bytes(row@, i as int),
        decreases row@.len() - i,
    {
        bytes::push_le(&mut out, row[i] as u64, 4);
        proof {
            let b = bytes::le_bytes(row@[i as int] as nat, 4);
            assert(head + row_bytes(row@, i as int) + b =~= head + (row_bytes(row@, i as int) + b));
        }
        i = i + 1;
    }
    Some(out)
}

} // verus!
