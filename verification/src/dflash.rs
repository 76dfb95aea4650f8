//! Block drafting beside the hybrid: the draft's header, the feature ring,
//! and one round of draft, verification and rollback.

use vstd::prelude::*;

use crate::geom;
use crate::geom::THETA_10M;
use crate::floats;
use crate::header;
use crate::header::Header;
use crate::hybrid::T_MAX;
use crate::shape::F32_ONE;
use crate::shape::F32_ZERO;
use crate::text;

verus! {

/// Positions whose features the ring holds: the draft's context window.
pub const RING_CAP: u32 = 256;

/// The stretch of the ring that a draft reads: the slot of its first
/// position, and how many positions.
#[derive(Clone, Copy, Debug, PartialEq, Eq, Structural)]
pub struct Window {
    pub first: u32,
    pub len: u32,
}

/// Slot of a position.
pub open spec fn slot_of(pos: int) -> int {
    pos % 256
}

/// The last positions before `committed`, as many as the ring holds.
pub fn window(committed: u32) -> (w: Window)
    ensures
        w.len == if committed <= RING_CAP {
            committed
        } else {
            RING_CAP
        },
        w.first == slot_of(committed - w.len),
{
    let len: u32 = if committed <= RING_CAP {
        committed
    } else {
        RING_CAP
    };
    Window { first: (committed - len) % RING_CAP, len }
}

/// The positions of a window lie in different slots, so none has overwritten
/// another; and they follow the first slot around the ring.
pub proof fn window_slots_are_distinct(committed: int, p: int, q: int)
    requires
        0 <= p < q < committed,
        committed - p <= 256,
    ensures
        slot_of(p) != slot_of(q),
        slot_of(q) == (slot_of(p) + (q - p)) % 256,
{
}

/// Where the row entering a layer is captured.
#[derive(Clone, Copy, Debug, PartialEq, Eq, Structural)]
pub enum Capture {
    No,
    /// In this column of the ring.
    Ring(usize),
    /// Staged on the second card, for this column.
    Staged(usize),
}

/// First place of `il` among the first `n` captured layers.
pub open spec fn column(ids: Seq<u64>, il: u64, n: int) -> Option<int>
    decreases n,
{
    if n <= 0 {
        None
    } else {
        match column(ids, il, n - 1) {
            Some(i) => Some(i),
            None => if ids[n - 1] == il { Some(n - 1) } else { None },
        }
    }
}

proof fn lemma_column(ids: Seq<u64>, il: u64, a: int, b: int)
    requires
        a <= b,
        column(ids, il, a) is Some,
    ensures
        column(ids, il, b) == column(ids, il, a),
    decreases b,
{
    if a < b {
        lemma_column(ids, il, a, b - 1);
    }
}

/// Where the row entering layer `il` is captured. `second` is the first layer
/// of the second card.
pub fn capture_at(ids: &Vec<u64>, il: u64, second: Option<u64>) -> (c: Capture)
    ensures
        c == match column(ids@, il, ids@.len() as int) {
            Some(i) => if second is Some && il >= second->0 {
                Capture::Staged(i as usize)
            } else {
                Capture::Ring(i as usize)
            },
            None => Capture::No,
        },
{
    let mut i: usize = 0;
    while i < ids.len()
        invariant
            i <= ids@.len(),
            column(ids@, il, i as int) is None,
        decreases ids@.len() - i,
    {
        if ids[i] == il {
            proof {
                lemma_column(ids@, il, i + 1, ids@.len() as int);
            }
            return match second {
                Some(f) => if il >= f {
                    Capture::Staged(i)
                } else {
                    Capture::Ring(i)
                },
                None => Capture::Ring(i),
            };
        }
        i = i + 1;
    }
    Capture::No
}

/// The block a draft starts from: the last token, then masks.
pub fn noise_block(last: u32, mask: u32, n: usize) -> (v: Vec<u32>)
    requires
        n >= 1,
    ensures
        v@.len() == n,
        v@[0] == last,
        forall|i: int| 1 <= i < n ==> #[trigger] v@[i] == mask,
{
    let mut v: Vec<u32> = Vec::new();
    v.push(last);
    let mut i: usize = 1;
    while i < n
        invariant
            1 <= i <= n,
            v@.len() == i,
            v@[0] == last,
            forall|k: int| 1 <= k < i ==> #[trigger] v@[k] == mask,
        decreases n - i,
    {
        v.push(mask);
        i = i + 1;
    }
    v
}

/// The row of logits that slot `j` of a block is read from: a draft that
/// predicts next tokens reads it one row earlier.
pub open spec fn row_of(next_rows: bool, j: int) -> int {
    if next_rows && j > 0 {
        j - 1
    } else {
        j
    }
}

/// The row of logits of a slot.
pub fn draft_row(next_rows: bool, j: usize) -> (r: usize)
    ensures
        r == row_of(next_rows, j as int),
{
    if next_rows && j > 0 {
        j - 1
    } else {
        j
    }
}

/// The drafted block from the choices of its rows: the last token, then one
/// choice per slot.
pub fn draft_block(picks: &Vec<u32>, next_rows: bool, last: u32) -> (v: Vec<u32>)
    requires
        picks@.len() >= 1,
    ensures
        v@.len() == picks@.len(),
        v@[0] == last,
        forall|i: int|
            1 <= i < v@.len() ==> #[trigger] v@[i] == picks@[row_of(next_rows, i)],
{
    let n: usize = picks.len();
    let mut v: Vec<u32> = Vec::new();
    v.push(last);
    let mut i: usize = 1;
    while i < n
        invariant
            1 <= i <= n,
            n == picks@.len(),
            v@.len() == i,
            v@[0] == last,
            forall|k: int| 1 <= k < i ==> #[trigger] v@[k] == picks@[row_of(next_rows, k)],
        decreases n - i,
    {
        v.push(picks[draft_row(next_rows, i)]);
        i = i + 1;
    }
    v
}

/// The drafts that survive: those before the first whose confidence lies
/// under the bar. The last token is always kept.
pub open spec fn sure_prefix(confs: Seq<u32>, bar: u32, i: int) -> int
    decreases confs.len() - i,
{
    if i >= confs.len() || floats::above(bar, confs[i]) {
        i
    } else {
        sure_prefix(confs, bar, i + 1)
    }
}

/// How many slots of a block are verified, by the confidence in each draft.
pub fn confident(confs: &Vec<u32>, bar: u32) -> (n: usize)
    requires
        confs@.len() < usize::MAX,
    ensures
        n == 1 + sure_prefix(confs@, bar, 0),
        1 <= n <= confs@.len() + 1,
        forall|i: int| 0 <= i < n - 1 ==> !floats::above(bar, #[trigger] confs@[i]),
{
    let mut i: usize = 0;
    while i < confs.len() && !floats::greater(bar, confs[i])
        invariant
            i <= confs@.len() < usize::MAX,
            sure_prefix(confs@, bar, 0) == sure_prefix(confs@, bar, i as int),
            forall|k: int| 0 <= k < i ==> !floats::above(bar, #[trigger] confs@[k]),
        decreases confs@.len() - i,
    {
        i = i + 1;
    }
    i + 1
}

/// The context has room for a whole block and the token behind it.
pub fn block_fits(pos: u32, block: usize, ctx: u32) -> (r: bool)
    ensures
        r == (pos + block + 1 < ctx),
{
    pos as u128 + (block as u128) + 1 < ctx as u128
}

/// What a layer's rolling state needs after a round.
#[derive(Clone, Copy, Debug, PartialEq, Eq, Structural)]
pub struct Rollback {
    /// It runs on the second card.
    pub on_second: bool,
    /// The accepted rows are replayed behind the restored state.
    pub replay: bool,
}

/// What layer `il` needs after a round that accepted `n` rows; `None` for a
/// layer without a rolling state.
pub fn rollback_to(has_state: bool, il: u64, second: Option<u64>, n: u32) -> (r: Option<Rollback>)
    ensures
        r == if has_state {
            Some(Rollback { on_second: second is Some && il >= second->0, replay: n != 0 })
        } else {
            None
        },
{
    if !has_state {
        return None;
    }
    let on_second: bool = match second {
        Some(f) => il >= f,
        None => false,
    };
    Some(Rollback { on_second, replay: n != 0 })
}

/// Why a draft header is refused.
pub enum DraftError {
    /// It is no draft.
    NotDraft,
    /// A key is missing or has the wrong kind.
    Missing(String),
    /// Its block is longer than a verification.
    Block,
}

/// `DraftError`, with its text as characters.
pub enum DraftFault {
    NotDraft,
    Missing(Seq<char>),
    Block,
}

impl DraftError {
    pub open spec fn fault(self) -> DraftFault {
        match self {
            DraftError::NotDraft => DraftFault::NotDraft,
            DraftError::Missing(k) => DraftFault::Missing(k@),
            DraftError::Block => DraftFault::Block,
        }
    }
}

/// Dimensions of a draft. Reals are float bits.
pub struct DraftShape {
    pub n_layer: u32,
    pub n_embd: u32,
    pub ff: u32,
    pub n_head: u32,
    pub n_kv: u32,
    pub head_dim: u32,
    pub block_size: u32,
    pub mask_id: u32,
    pub rope_base: u32,
    /// Stretch of the frequencies, and the context it starts from.
    pub yarn: Option<(u32, u32)>,
    /// Layers of the target whose rows it reads.
    pub layer_ids: Vec<u64>,
    /// Its rows predict the next token rather than fill their own slot.
    pub next_rows: bool,
    /// Rank of the bigram head, where it is used.
    pub markov_rank: Option<u32>,
    /// The acceptance head is used.
    pub confidence: bool,
    pub conf_bias: u32,
}

/// The integer keys a draft must have.
pub open spec fn draft_keys() -> Seq<Seq<char>> {
    seq![
        "block_count"@,
        "embedding_length"@,
        "feed_forward_length"@,
        "attention.head_count"@,
        "attention.head_count_kv"@,
        "attention.key_length"@,
        "dflash.block_size"@,
        "dflash.mask_token_id"@,
    ]
}

/// First of the first `n` keys that a header lacks.
pub open spec fn missing_key(h: &Header, keys: Seq<Seq<char>>, n: int) -> Option<Seq<char>>
    decreases n,
{
    if n <= 0 {
        None
    } else {
        match missing_key(h, keys, n - 1) {
            Some(k) => Some(k),
            None => if h.num32(keys[n - 1]) is None { Some(keys[n - 1]) } else { None },
        }
    }
}

/// What keeps a draft header from being read.
pub open spec fn draft_fault(h: &Header) -> Option<DraftFault> {
    if h.arch() != Some("dflash-draft"@) {
        Some(DraftFault::NotDraft)
    } else if missing_key(h, draft_keys(), 8) is Some {
        Some(DraftFault::Missing(missing_key(h, draft_keys(), 8)->0))
    } else if h.list("dflash.target_layer_ids"@) is None {
        Some(DraftFault::Missing("dflash.target_layer_ids"@))
    } else if h.num32("dflash.block_size"@)->0 > T_MAX {
        Some(DraftFault::Block)
    } else {
        None
    }
}

/// Rows predict the next token.
pub open spec fn predicts_next(h: &Header, forced: bool) -> bool {
    h.value("dspark.confidence_head"@) is Some || forced
}

/// The captured layers; a draft that predicts next tokens reads the rows one
/// layer later.
pub open spec fn captured(h: &Header, forced: bool) -> Seq<u64> {
    let l = h.list("dflash.target_layer_ids"@)->0;
    let ids = geom::nums_in(l, l.len() as int);
    if predicts_next(h, forced) {
        Seq::new(ids.len(), |i: int| ids[i].wrapping_add(1))
    } else {
        ids
    }
}

/// Rank of the bigram head, where it is used.
pub open spec fn markov(h: &Header, off: bool) -> Option<u32> {
    match h.num("dspark.markov_rank"@) {
        Some(r) => if r > 0 && !off { Some(header::low32(r)) } else { None },
        None => None,
    }
}

/// The acceptance head is switched on.
pub open spec fn has_confidence(h: &Header) -> bool {
    match h.value("dspark.confidence_head"@) {
        Some(v) => v.item.flag == Some(true),
        None => false,
    }
}

/// `d` is what the header says. `forced` and `off` are settings.
pub open spec fn is_draft(d: &DraftShape, h: &Header, forced: bool, off: bool) -> bool {
    &&& h.num32("block_count"@) == Some(d.n_layer)
    &&& h.num32("embedding_length"@) == Some(d.n_embd)
    &&& h.num32("feed_forward_length"@) == Some(d.ff)
    &&& h.num32("attention.head_count"@) == Some(d.n_head)
    &&& h.num32("attention.head_count_kv"@) == Some(d.n_kv)
    &&& h.num32("attention.key_length"@) == Some(d.head_dim)
    &&& h.num32("dflash.block_size"@) == Some(d.block_size)
    &&& h.num32("dflash.mask_token_id"@) == Some(d.mask_id)
    &&& d.rope_base == h.bits_or("rope.freq_base"@, THETA_10M)
    &&& d.yarn == {
        let f = h.bits_or("rope.scaling.factor"@, F32_ONE);
        if floats::above(f, F32_ONE) {
            Some((f, h.num32_or("rope.scaling.original_context_length"@, 4096)))
        } else {
            None
        }
    }
    &&& d.layer_ids@ == captured(h, forced)
    &&& d.next_rows == predicts_next(h, forced)
    &&& d.markov_rank == markov(h, off)
    &&& d.confidence == (d.markov_rank is Some && has_confidence(h))
    &&& d.conf_bias == h.bits_or("dspark.confidence_bias"@, F32_ZERO)
}

fn need(h: &Header, key: &str) -> (r: Result<u32, DraftError>)
    ensures
        match r {
            Ok(n) => h.num32(key@) == Some(n),
            Err(e) => h.num32(key@) is None && e.fault() == DraftFault::Missing(key@),
        },
{
    match h.get_num32(key) {
        Some(n) => Ok(n),
        None => Err(DraftError::Missing(String::from_str(key))),
    }
}

/// The eight integers of a draft header.
struct Ints {
    n_layer: u32,
    n_embd: u32,
    ff: u32,
    n_head: u32,
    n_kv: u32,
    head_dim: u32,
    block_size: u32,
    mask_id: u32,
}

fn read_ints(h: &Header) -> (r: Result<Ints, DraftError>)
    ensures
        match r {
            Ok(d) => {
                &&& missing_key(h, draft_keys(), 8) is None
                &&& h.num32("block_count"@) == Some(d.n_layer)
                &&& h.num32("embedding_length"@) == Some(d.n_embd)
                &&& h.num32("feed_forward_length"@) == Some(d.ff)
                &&& h.num32("attention.head_count"@) == Some(d.n_head)
                &&& h.num32("attention.head_count_kv"@) == Some(d.n_kv)
                &&& h.num32("attention.key_length"@) == Some(d.head_dim)
                &&& h.num32("dflash.block_size"@) == Some(d.block_size)
                &&& h.num32("dflash.mask_token_id"@) == Some(d.mask_id)
            },
            Err(e) => missing_key(h, draft_keys(), 8) is Some && e.fault() == DraftFault::Missing(
                missing_key(h, draft_keys(), 8)->0,
            ),
        },
{
    proof {
        reveal_with_fuel(missing_key, 9);
    }
    let n_layer: u32 = match need(h, "block_count") {
        Ok(n) => n,
        Err(e) => {
            return Err(e);
        },
    };
    let n_embd: u32 = match need(h, "embedding_length") {
        Ok(n) => n,
        Err(e) => {
            return Err(e);
        },
    };
    let ff: u32 = match need(h, "feed_forward_length") {
        Ok(n) => n,
        Err(e) => {
            return Err(e);
        },
    };
    let n_head: u32 = match need(h, "attention.head_count") {
        Ok(n) => n,
        Err(e) => {
            return Err(e);
        },
    };
    let n_kv: u32 = match need(h, "attention.head_count_kv") {
        Ok(n) => n,
        Err(e) => {
            return Err(e);
        },
    };
    let head_dim: u32 = match need(h, "attention.key_length") {
        Ok(n) => n,
        Err(e) => {
            return Err(e);
        },
    };
    let block_size: u32 = match need(h, "dflash.block_size") {
        Ok(n) => n,
        Err(e) => {
            return Err(e);
        },
    };
    let mask_id: u32 = match need(h, "dflash.mask_token_id") {
        Ok(n) => n,
        Err(e) => {
            return Err(e);
        },
    };
    Ok(Ints { n_layer, n_embd, ff, n_head, n_kv, head_dim, block_size, mask_id })
}

/// Read a draft's header. `forced` reads its rows as next-token rows, `off`
/// leaves its extra heads unused.
pub fn read_draft(h: &Header, forced: bool, off: bool) -> (r: Result<DraftShape, DraftError>)
    ensures
        match r {
            Ok(d) => draft_fault(h) is None && is_draft(&d, h, forced, off),
            Err(e) => draft_fault(h) == Some(e.fault()),
        },
{
    let named: bool = match &h.architecture {
        Some(a) => text::same(a.as_str(), "dflash-draft"),
        None => false,
    };
    if !named {
        return Err(DraftError::NotDraft);
    }
    let k = match read_ints(h) {
        Ok(k) => k,
        Err(e) => {
            return Err(e);
        },
    };
    let rope_base: u32 = h.get_bits_or("rope.freq_base", THETA_10M);
    let factor: u32 = h.get_bits_or("rope.scaling.factor", F32_ONE);
    let yarn: Option<(u32, u32)> = if floats::greater(factor, F32_ONE) {
        Some((factor, h.get_num32_or("rope.scaling.original_context_length", 4096)))
    } else {
        None
    };
    let listed: bool = h.get_list("dflash.target_layer_ids").is_some();
    if !listed {
        return Err(DraftError::Missing(String::from_str("dflash.target_layer_ids")));
    }
    let ids = geom::nums_under(h, "dflash.target_layer_ids");
    let next_rows: bool = h.arch_meta("dspark.confidence_head").is_some() || forced;
    let layer_ids: Vec<u64> = if next_rows {
        shifted(&ids)
    } else {
        ids
    };
    if k.block_size as usize > T_MAX {
        return Err(DraftError::Block);
    }
    let markov_rank: Option<u32> = match h.get_num("dspark.markov_rank") {
        Some(n) => if n > 0 && !off {
            Some(header::cut32(n))
        } else {
            None
        },
        None => None,
    };
    let flagged: bool = match h.arch_meta("dspark.confidence_head") {
        Some(v) => match v.item.flag {
            Some(b) => b,
            None => false,
        },
        None => false,
    };
    Ok(
        DraftShape {
            n_layer: k.n_layer,
            n_embd: k.n_embd,
            ff: k.ff,
            n_head: k.n_head,
            n_kv: k.n_kv,
            head_dim: k.head_dim,
            block_size: k.block_size,
            mask_id: k.mask_id,
            rope_base,
            yarn,
            layer_ids,
            next_rows,
            confidence: markov_rank.is_some() && flagged,
            markov_rank,
            conf_bias: h.get_bits_or("dspark.confidence_bias", F32_ZERO),
        },
    )
}

fn shifted(ids: &Vec<u64>) -> (v: Vec<u64>)
    ensures
        v@ == Seq::new(ids@.len(), |i: int| ids@[i].wrapping_add(1)),
{
    let mut v: Vec<u64> = Vec::new();
    let mut i: usize = 0;
    while i < ids.len()
        invariant
            i <= ids@.len(),
            v@.len() == i,
            forall|k: int| 0 <= k < i ==> #[trigger] v@[k] == ids@[k].wrapping_add(1),
        decreases ids@.len() - i,
    {
        v.push(ids[i].wrapping_add(1));
        i = i + 1;
    }
    assert(v@ =~= Seq::new(ids@.len(), |k: int| ids@[k].wrapping_add(1)));
    v
}

/// What to print for a refused draft header.
pub fn draft_message(e: &DraftError, path: &str) -> (s: String)
    ensures
        s@ == match e.fault() {
            DraftFault::NotDraft => path@ + ": not a dflash-draft gguf"@,
            DraftFault::Missing(k) => "draft gguf missing "@ + k,
            DraftFault::Block => "draft block_size exceeds T_MAX"@,
        },
{
    match e {
        DraftError::NotDraft => {
            let mut s = String::from_str(path);
            s.append(": not a dflash-draft gguf");
            s
        },
        DraftError::Missing(k) => {
            let mut s = String::from_str("draft gguf missing ");
            s.append(k.as_str());
            s
        },
        DraftError::Block => String::from_str("draft block_size exceeds T_MAX"),
    }
}

/// The column of a captured layer is the first that names it.
pub proof fn columns_are_first_places(ids: Seq<u64>, il: u64, n: int)
    requires
        0 <= n <= ids.len(),
    ensures
        match column(ids, il, n) {
            Some(i) => 0 <= i < n && ids[i] == il && forall|j: int|
                0 <= j < i ==> #[trigger] ids[j] != il,
            None => forall|j: int| 0 <= j < n ==> #[trigger] ids[j] != il,
        },
    decreases n,
{
    if n > 0 {
        columns_are_first_places(ids, il, n - 1);
    }
}

/// The drafts that are verified end before the first whose confidence is
/// under the bar, and reach it.
pub proof fn sure_prefix_ends_at_the_first_doubt(confs: Seq<u32>, bar: u32, i: int)
    requires
        0 <= i <= confs.len(),
    ensures
        i <= sure_prefix(confs, bar, i) <= confs.len(),
        forall|k: int|
            i <= k < sure_prefix(confs, bar, i) ==> !floats::above(bar, #[trigger] confs[k]),
        sure_prefix(confs, bar, i) < confs.len() ==> floats::above(
            bar,
            confs[sure_prefix(confs, bar, i)],
        ),
    decreases confs.len() - i,
{
    if i < confs.len() && !floats::above(bar, confs[i]) {
        sure_prefix_ends_at_the_first_doubt(confs, bar, i + 1);
    }
}

/// A draft that predicts next tokens fills slot `j` from the row before it;
/// another from its own row. The first slot is its own in both.
pub proof fn slots_read_their_rows(j: int)
    requires
        0 <= j,
    ensures
        row_of(false, j) == j,
        row_of(true, j + 1) == j,
        row_of(true, 0) == 0,
{
}

/// The slot of a position stays the same every ring's length, and the ring
/// holds as many slots.
pub proof fn slots_repeat_with_the_ring(pos: int)
    requires
        0 <= pos,
    ensures
        0 <= slot_of(pos) < RING_CAP,
        slot_of(pos + RING_CAP) == slot_of(pos),
        pos < RING_CAP ==> slot_of(pos) == pos,
{
}

/// What a draft header says: its eight numbers, its layers one later where
/// its rows predict, and its extra heads where they are not switched off.
pub proof fn draft_reads_its_header(d: &DraftShape, h: &Header, forced: bool, off: bool)
    requires
        draft_fault(h) is None,
        is_draft(d, h, forced, off),
    ensures
        h.arch() == Some("dflash-draft"@),
        d.block_size <= T_MAX,
        h.num32("block_count"@) == Some(d.n_layer) && h.num32("embedding_length"@) == Some(d.n_embd)
            && h.num32("feed_forward_length"@) == Some(d.ff),
        h.num32("attention.head_count"@) == Some(d.n_head) && h.num32("attention.head_count_kv"@)
            == Some(d.n_kv) && h.num32("attention.key_length"@) == Some(d.head_dim),
        h.num32("dflash.block_size"@) == Some(d.block_size) && h.num32("dflash.mask_token_id"@)
            == Some(d.mask_id),
        h.bits("rope.freq_base"@) is Some ==> d.rope_base == h.bits("rope.freq_base"@)->0,
        h.bits("rope.freq_base"@) is None ==> d.rope_base == 0x4b18_9680,
        d.next_rows <==> forced || h.value("dspark.confidence_head"@) is Some,
        h.list("dflash.target_layer_ids"@) is Some,
        ({
            let l = h.list("dflash.target_layer_ids"@)->0;
            let ids = geom::nums_in(l, l.len() as int);
            &&& d.layer_ids@.len() == ids.len()
            &&& forall|i: int|
                0 <= i < ids.len() ==> #[trigger] d.layer_ids@[i] == (if d.next_rows {
                    (ids[i] + 1) % 0x1_0000_0000_0000_0000
                } else {
                    ids[i] as int
                })
        }),
        d.yarn is Some ==> h.bits("rope.scaling.factor"@) == Some((d.yarn->0).0) && floats::above(
            (d.yarn->0).0,
            0x3f80_0000,
        ),
        h.bits("rope.scaling.factor"@) is Some && floats::above(
            h.bits("rope.scaling.factor"@)->0,
            0x3f80_0000,
        ) ==> d.yarn is Some,
        d.yarn is Some && h.num32("rope.scaling.original_context_length"@) is Some ==> Some(
            (d.yarn->0).1,
        ) == h.num32("rope.scaling.original_context_length"@),
        d.yarn is Some && h.num32("rope.scaling.original_context_length"@) is None ==> (d.yarn->0).1
            == 4096,
        d.markov_rank is Some <==> !off && h.num("dspark.markov_rank"@) is Some && h.num(
            "dspark.markov_rank"@,
        )->0 > 0,
        d.markov_rank is Some ==> (h.num("dspark.markov_rank"@)->0 - d.markov_rank->0)
            % 0x1_0000_0000 == 0,
        d.confidence <==> d.markov_rank is Some && h.value("dspark.confidence_head"@) is Some
            && h.value("dspark.confidence_head"@)->0.item.flag == Some(true),
        h.bits("dspark.confidence_bias"@) is Some ==> d.conf_bias == h.bits(
            "dspark.confidence_bias"@,
        )->0,
        h.bits("dspark.confidence_bias"@) is None ==> d.conf_bias == 0,
{
}

} // verus!
