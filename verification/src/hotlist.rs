//! Hotlists: expert heat by layer and expert index, as text.
//!
//! A hotlist seeds the caches of a machine that has no census yet. It is
//! keyed by index rather than by byte offset, so it survives a requantized
//! model file.

use std::collections::HashMap;
use vstd::prelude::*;

use crate::bank::ExpertBank;
use crate::census::CensusEntry;
use crate::census;
use crate::header;
use crate::header::Header;
use crate::shape::Family;
use crate::sort;
use crate::text;
use crate::words;
use crate::words::Span;

verus! {

broadcast use vstd::std_specs::hash::group_hash_axioms;

/// Rows a rendered hotlist keeps.
pub const HOTLIST_ROWS: usize = 4096;

/// Name of the hotlist that ships for a family.
pub open spec fn hotlist_of(f: Family) -> Option<Seq<char>> {
    match f {
        Family::Mla => Some("mla"@),
        Family::Gqa => Some("gqa"@),
        Family::Dsv4 => Some("dsv4"@),
        Family::Qwen35 => Some("qwen35"@),
        Family::K3 => None,
    }
}

/// The hotlist that ships for a family, by name.
pub fn builtin_hotlist(f: Family) -> (r: Option<&'static str>)
    ensures
        match r {
            Some(n) => hotlist_of(f) == Some(n@),
            None => hotlist_of(f) is None,
        },
{
    match f {
        Family::Mla => Some("mla"),
        Family::Gqa => Some("gqa"),
        Family::Dsv4 => Some("dsv4"),
        Family::Qwen35 => Some("qwen35"),
        Family::K3 => None,
    }
}

/// Where the census of a model file is kept.
pub fn warm_path(model: &str) -> (p: String)
    ensures
        p@ == model@ + ".warm"@,
{
    let mut p = String::from_str(model);
    p.append(".warm");
    p
}

/// One hotlist line: an expert of a layer, routed or of the shared bank, and
/// its heat.
#[derive(Clone, Copy, Debug, PartialEq, Eq, Structural)]
pub struct HotRow {
    pub layer: usize,
    pub sink: bool,
    pub idx: u64,
    pub count: u64,
}

/// The row a line holds: layer, expert (`s` marks the shared bank), count.
pub open spec fn row_in(line: Seq<char>) -> Option<HotRow> {
    let w = words::words(line);
    if w.len() < 3 {
        None
    } else {
        let sink = w[1].len() > 0 && w[1][0] == 's';
        let id = if sink { w[1].drop_first() } else { w[1] };
        match (
            text::number_upto(w[0], usize::MAX as nat),
            text::number_upto(id, u64::MAX as nat),
            text::number_upto(w[2], u64::MAX as nat),
        ) {
            (Some(l), Some(e), Some(c)) => Some(
                HotRow { layer: l as usize, sink, idx: e as u64, count: c as u64 },
            ),
            _ => None,
        }
    }
}

/// The number behind the first of `ws` that starts with `key`.
pub open spec fn field_of(ws: Seq<Seq<char>>, key: Seq<char>) -> Option<nat>
    decreases ws.len(),
{
    if ws.len() == 0 {
        None
    } else if text::begins_with(ws[0], key) {
        text::number_upto(ws[0].skip(key.len() as int), u64::MAX as nat)
    } else {
        field_of(ws.drop_first(), key)
    }
}

/// Heat map with one row applied: its three slabs get the row's count. Rows
/// that name no expert of the model change nothing.
pub open spec fn with_row(
    heat: Map<u64, (u64, u64)>,
    banks: Seq<Option<ExpertBank>>,
    row: HotRow,
) -> Map<u64, (u64, u64)> {
    if row.layer >= banks.len() || banks[row.layer as int] is None {
        heat
    } else {
        let b = banks[row.layer as int]->0;
        let limit = if row.sink { b.n_sink } else { b.n_expert };
        if row.idx >= limit {
            heat
        } else {
            let e = (if row.sink { b.n_expert + row.idx } else { row.idx as int }) as u32;
            let s = b.slabs(e);
            heat.insert(s[0].offset, (row.count, s[0].len)).insert(
                s[1].offset,
                (row.count, s[1].len),
            ).insert(s[2].offset, (row.count, s[2].len))
        }
    }
}

/// Heat map with the first `n` lines applied.
pub open spec fn with_lines(
    heat: Map<u64, (u64, u64)>,
    banks: Seq<Option<ExpertBank>>,
    ls: Seq<Seq<char>>,
    n: int,
) -> Map<u64, (u64, u64)>
    decreases n,
{
    if n <= 0 {
        heat
    } else {
        let head = with_lines(heat, banks, ls, n - 1);
        match row_in(ls[n - 1]) {
            Some(row) => with_row(head, banks, row),
            None => head,
        }
    }
}

/// The first line of a hotlist names this many layers and experts.
pub open spec fn header_matches(ls: Seq<Seq<char>>, n_layer: u32, n_expert: u32) -> bool {
    &&& ls.len() > 0
    &&& field_of(words::words(ls[0]), "n_layer="@) == Some(n_layer as nat)
    &&& field_of(words::words(ls[0]), "n_expert="@) == Some(n_expert as nat)
}

/// Heat map with a hotlist applied: the first line is the header, and a
/// header for another number of layers or experts voids the list.
pub open spec fn with_hotlist(
    heat: Map<u64, (u64, u64)>,
    banks: Seq<Option<ExpertBank>>,
    n_layer: u32,
    n_expert: u32,
    list: Seq<char>,
) -> Map<u64, (u64, u64)> {
    let ls = words::lines(list);
    if header_matches(ls, n_layer, n_expert) {
        with_lines(heat, banks, ls.drop_first(), ls.len() - 1)
    } else {
        heat
    }
}

fn parse_row(v: &Vec<char>, line: Span) -> (r: Option<HotRow>)
    requires
        line.lo <= line.hi <= v@.len(),
    ensures
        r == row_in(words::span_of(v@, line)),
{
    let w = words::split_words(v, line.lo, line.hi);
    if w.len() < 3 {
        return None;
    }
    let e: Span = w[1];
    let ghost id = words::words(words::span_of(v@, line))[1];
    assert(words::span_of(v@, e) == id);
    let sink: bool = e.lo < e.hi && v[e.lo] == 's';
    let id_lo: usize = if sink { e.lo + 1 } else { e.lo };
    proof {
        if sink {
            assert(id.drop_first() =~= v@.subrange(id_lo as int, e.hi as int));
        }
        assert(words::span_of(v@, w@[0]) == words::words(words::span_of(v@, line))[0]);
        assert(words::span_of(v@, w@[2]) == words::words(words::span_of(v@, line))[2]);
    }
    let layer: usize = match text::parse_span(v, w[0].lo, w[0].hi) {
        Some(n) => if n <= usize::MAX as u64 {
            n as usize
        } else {
            return None;
        },
        None => {
            return None;
        },
    };
    let idx: u64 = match text::parse_span(v, id_lo, e.hi) {
        Some(n) => n,
        None => {
            return None;
        },
    };
    let count: u64 = match text::parse_span(v, w[2].lo, w[2].hi) {
        Some(n) => n,
        None => {
            return None;
        },
    };
    Some(HotRow { layer, sink, idx, count })
}

fn parse_field(v: &Vec<char>, line: Span, key: &str) -> (r: Option<u64>)
    requires
        line.lo <= line.hi <= v@.len(),
    ensures
        match r {
            Some(n) => field_of(words::words(words::span_of(v@, line)), key@) == Some(n as nat),
            None => field_of(words::words(words::span_of(v@, line)), key@) is None,
        },
{
    let w = words::split_words(v, line.lo, line.hi);
    let k = text::chars_of(key);
    let ghost ws = words::words(words::span_of(v@, line));
    let mut i: usize = 0;
    assert(ws.skip(0) =~= ws);
    while i < w.len()
        invariant
            i <= w@.len(),
            k@ == key@,
            ws == words::words(words::span_of(v@, line)),
            words::spans_are(v@, w@, ws),
            field_of(ws, key@) == field_of(ws.skip(i as int), key@),
        decreases w@.len() - i,
    {
        let s: Span = w[i];
        let ghost word = ws[i as int];
        proof {
            assert(words::span_of(v@, w@[i as int]) == word);
            assert(ws.skip(i as int)[0] == word);
            assert(ws.skip(i as int).drop_first() =~= ws.skip(i + 1));
        }
        if s.hi - s.lo >= k.len() && text::matches_at(v, s.lo, &k) {
            proof {
                assert(v@.skip(s.lo as int).take(k@.len() as int) =~= word.take(k@.len() as int));
                assert(word.skip(k@.len() as int) =~= v@.subrange(s.lo + k@.len(), s.hi as int));
            }
            return text::parse_span(v, s.lo + k.len(), s.hi);
        }
        proof {
            if text::begins_with(word, key@) {
                assert(v@.skip(s.lo as int).take(k@.len() as int) =~= word.take(k@.len() as int));
            }
        }
        i = i + 1;
    }
    assert(ws.skip(i as int).len() == 0);
    None
}

/// Seed a heat map from a hotlist.
pub fn hotlist_heat(
    list: &str,
    n_layer: u32,
    n_expert: u32,
    banks: &Vec<Option<ExpertBank>>,
    heat: &mut HashMap<u64, (u64, u64)>,
)
    requires
        forall|i: int|
            0 <= i < banks@.len() && (#[trigger] banks@[i]) is Some ==> banks@[i]->0.wf(),
    ensures
        final(heat)@ == with_hotlist(old(heat)@, banks@, n_layer, n_expert, list@),
{
    let v = text::chars_of(list);
    let ls = words::split_lines(&v);
    let ghost parts = words::lines(list@);
    if ls.len() == 0 {
        return ;
    }
    assert(words::span_of(v@, ls@[0]) == parts[0]);
    let layers: bool = match parse_field(&v, ls[0], "n_layer=") {
        Some(n) => n == n_layer as u64,
        None => false,
    };
    let experts: bool = match parse_field(&v, ls[0], "n_expert=") {
        Some(n) => n == n_expert as u64,
        None => false,
    };
    if !layers || !experts {
        return ;
    }
    let ghost start = heat@;
    let mut i: usize = 1;
    while i < ls.len()
        invariant
            1 <= i <= ls@.len(),
            words::spans_are(v@, ls@, parts),
            forall|k: int|
                0 <= k < banks@.len() && (#[trigger] banks@[k]) is Some ==> banks@[k]->0.wf(),
            heat@ == with_lines(start, banks@, parts.drop_first(), i - 1),
        decreases ls@.len() - i,
    {
        let line: Span = ls[i];
        assert(words::span_of(v@, ls@[i as int]) == parts[i as int]);
        assert(parts.drop_first()[i - 1] == parts[i as int]);
        match parse_row(&v, line) {
            Some(row) => {
                apply_row(heat, banks, row);
            },
            None => {},
        }
        i = i + 1;
    }
}

fn apply_row(heat: &mut HashMap<u64, (u64, u64)>, banks: &Vec<Option<ExpertBank>>, row: HotRow)
    requires
        forall|i: int|
            0 <= i < banks@.len() && (#[trigger] banks@[i]) is Some ==> banks@[i]->0.wf(),
    ensures
        final(heat)@ == with_row(old(heat)@, banks@, row),
{
    if row.layer >= banks.len() {
        return ;
    }
    match &banks[row.layer] {
        None => {},
        Some(b) => {
            let limit: u32 = if row.sink { b.n_sink } else { b.n_expert };
            if row.idx >= limit as u64 {
                return ;
            }
            let e: u32 = if row.sink { b.n_expert + row.idx as u32 } else { row.idx as u32 };
            let s = b.slabs_of(e);
            heat.insert(s[0].offset, (row.count, s[0].len));
            heat.insert(s[1].offset, (row.count, s[1].len));
            heat.insert(s[2].offset, (row.count, s[2].len));
        },
    }
}

/// Facts about a model that a hotlist is held against.
pub struct Listed<'a> {
    /// The list that ships for the model's family.
    pub list: Option<&'a str>,
    /// Seeding from it is switched off.
    pub off: bool,
    pub n_layer: u32,
    pub n_expert: u32,
    pub banks: &'a Vec<Option<ExpertBank>>,
}

impl Listed<'_> {
    pub open spec fn wf(&self) -> bool {
        forall|i: int|
            0 <= i < self.banks@.len() && (#[trigger] self.banks@[i]) is Some
                ==> self.banks@[i]->0.wf()
    }

    /// The heat that the list gives.
    pub open spec fn seed(&self) -> Map<u64, (u64, u64)> {
        if self.off || self.list is None {
            Map::empty()
        } else {
            with_hotlist(
                Map::empty(),
                self.banks@,
                self.n_layer,
                self.n_expert,
                self.list->0@,
            )
        }
    }

    fn seeded(&self) -> (heat: HashMap<u64, (u64, u64)>)
        requires
            self.wf(),
        ensures
            heat@ == self.seed(),
    {
        let mut heat: HashMap<u64, (u64, u64)> = HashMap::new();
        if !self.off {
            if let Some(list) = self.list {
                hotlist_heat(list, self.n_layer, self.n_expert, self.banks, &mut heat);
            }
        }
        heat
    }
}

/// Heat that the caches start with: that of the census file where there is
/// one, be it empty, and else that of the hotlist.
pub fn warm_heat(file: Option<&Vec<u8>>, l: &Listed<'_>) -> (heat: HashMap<u64, (u64, u64)>)
    requires
        l.wf(),
    ensures
        heat@ == match file {
            Some(b) => census::by_offset(census::census_in(b@)),
            None => l.seed(),
        },
{
    match file {
        Some(b) => census::census_map(&census::read_census(b)),
        None => l.seeded(),
    }
}

/// What expert tiers start from.
pub enum TierHeat {
    /// Tiers are switched off, or there is no card for one.
    Off,
    /// The experts carry biases, which only the first card holds.
    Biased,
    /// Nothing is known of the heat yet.
    Idle,
    /// Heat per slab offset.
    Known(HashMap<u64, (u64, u64)>),
}

/// Heat that tiers are filled by: the census alone. A first run has none,
/// so tiers are filled from the second run on.
pub open spec fn tier_seed(file: Option<&Vec<u8>>) -> Map<u64, (u64, u64)> {
    match file {
        Some(b) => census::by_offset(census::census_in(b@)),
        None => Map::empty(),
    }
}

/// Whether tiers are filled, and by what heat. `setting` is the tiers'
/// switch and `cards` the number of cards that could hold one.
pub fn tier_heat(
    setting: Option<&str>,
    biased: bool,
    cards: usize,
    file: Option<&Vec<u8>>,
) -> (r: TierHeat)
    ensures
        ({
            let off = setting is Some && setting->0@ == "off"@;
            let seed = tier_seed(file);
            if off || (!biased && cards == 0) {
                r is Off
            } else if biased {
                r is Biased
            } else if seed.dom() =~= Set::empty() {
                r is Idle
            } else {
                r matches TierHeat::Known(m) && m@ == seed
            }
        }),
{
    let off: bool = match setting {
        Some(s) => text::same(s, "off"),
        None => false,
    };
    if off {
        return TierHeat::Off;
    }
    if biased {
        return TierHeat::Biased;
    }
    if cards == 0 {
        return TierHeat::Off;
    }
    let heat: HashMap<u64, (u64, u64)> = match file {
        Some(b) => census::census_map(&census::read_census(b)),
        None => HashMap::new(),
    };
    if nothing_in(&heat) {
        return TierHeat::Idle;
    }
    TierHeat::Known(heat)
}

fn nothing_in(m: &HashMap<u64, (u64, u64)>) -> (r: bool)
    ensures
        r == (m@.dom() =~= Set::empty()),
{
    m.is_empty()
}

/// Heat of one routed expert, by index.
#[derive(Clone, Copy, Debug, PartialEq, Eq, Structural)]
pub struct ExpertHeat {
    pub layer: u64,
    pub expert: u64,
    pub count: u64,
}

/// Why no hotlist can be written.
#[derive(Clone, Copy, Debug, PartialEq, Eq, Structural)]
pub enum HotlistError {
    NoExpertCount,
    NoBlockCount,
    NoCensus,
}

/// Kinds of routed-expert tensors, in slab order.
pub open spec fn kind_part(k: int) -> Seq<char> {
    if k == 0 {
        "ffn_gate_exps.weight"@
    } else if k == 1 {
        "ffn_up_exps.weight"@
    } else {
        "ffn_down_exps.weight"@
    }
}

/// Start and slab size of one routed-expert tensor of a layer.
pub open spec fn sized_part(h: &Header, il: u64, k: int, n_expert: u64) -> Option<(int, int)> {
    match h.tensor_named(header::blk_name(il as nat, kind_part(k))) {
        Some(t) => match t.byte_size {
            Some(b) => Some((h.data_offset + t.offset, b as int / n_expert as int)),
            None => None,
        },
        None => None,
    }
}

/// All three routed-expert tensors of a layer are there, with sizes.
pub open spec fn has_parts(h: &Header, il: u64, n_expert: u64) -> bool {
    sized_part(h, il, 0, n_expert) is Some && sized_part(h, il, 1, n_expert) is Some && sized_part(
        h,
        il,
        2,
        n_expert,
    ) is Some
}

/// Census count of part `k` of an expert.
pub open spec fn part_heat(
    h: &Header,
    heat: Map<u64, (u64, u64)>,
    il: u64,
    e: u64,
    k: int,
    n_expert: u64,
) -> nat {
    let (base, eb) = sized_part(h, il, k, n_expert)->0;
    let off = (base + e * eb) as u64;
    if heat.contains_key(off) {
        heat[off].0 as nat
    } else {
        0
    }
}

/// Census count of an expert: the sum over its slabs.
pub open spec fn expert_heat(
    h: &Header,
    heat: Map<u64, (u64, u64)>,
    il: u64,
    e: u64,
    n_expert: u64,
) -> nat {
    part_heat(h, heat, il, e, 0, n_expert) + part_heat(h, heat, il, e, 1, n_expert) + part_heat(
        h,
        heat,
        il,
        e,
        2,
        n_expert,
    )
}

/// The experts of layer `il` below `n` with any heat.
pub open spec fn layer_rows(
    h: &Header,
    heat: Map<u64, (u64, u64)>,
    il: u64,
    n_expert: u64,
    n: int,
) -> Seq<ExpertHeat>
    decreases n,
{
    if n <= 0 {
        Seq::empty()
    } else {
        let head = layer_rows(h, heat, il, n_expert, n - 1);
        let c = expert_heat(h, heat, il, (n - 1) as u64, n_expert);
        if c > 0 {
            head.push(ExpertHeat { layer: il, expert: (n - 1) as u64, count: c as u64 })
        } else {
            head
        }
    }
}

/// The experts of the first `n` layers with any heat.
pub open spec fn model_rows(
    h: &Header,
    heat: Map<u64, (u64, u64)>,
    n_expert: u64,
    n: int,
) -> Seq<ExpertHeat>
    decreases n,
{
    if n <= 0 {
        Seq::empty()
    } else {
        let head = model_rows(h, heat, n_expert, n - 1);
        if has_parts(h, (n - 1) as u64, n_expert) {
            head + layer_rows(h, heat, (n - 1) as u64, n_expert, n_expert as int)
        } else {
            head
        }
    }
}

/// Offsets and sums of one layer stay within 64 bits, and slab sizes can be
/// taken, as far as the layer is read: up to the first part that is missing.
pub open spec fn layer_fits(h: &Header, heat: Map<u64, (u64, u64)>, il: u64, n_expert: u64) -> bool {
    sized_part(h, il, 0, n_expert) matches Some(g) ==> {
        &&& n_expert > 0
        &&& g.0 <= u64::MAX
        &&& sized_part(h, il, 1, n_expert) matches Some(u) ==> {
            &&& u.0 <= u64::MAX
            &&& sized_part(h, il, 2, n_expert) matches Some(d) ==> {
                &&& d.0 <= u64::MAX
                &&& forall|e: u64| e < n_expert ==> #[trigger] expert_fits(h, heat, il, e, n_expert)
            }
        }
    }
}

/// Offsets and the sum of one expert stay within 64 bits.
pub open spec fn expert_fits(
    h: &Header,
    heat: Map<u64, (u64, u64)>,
    il: u64,
    e: u64,
    n_expert: u64,
) -> bool {
    &&& slab_start(h, il, e, 0, n_expert) <= u64::MAX
    &&& slab_start(h, il, e, 1, n_expert) <= u64::MAX
    &&& slab_start(h, il, e, 2, n_expert) <= u64::MAX
    &&& expert_heat(h, heat, il, e, n_expert) <= u64::MAX
}

/// Offsets and sums of a hotlist stay within 64 bits, and slab sizes can be
/// taken.
pub open spec fn hotlist_fits(h: &Header, heat: Map<u64, (u64, u64)>) -> bool {
    match (h.num("expert_count"@), h.num("block_count"@)) {
        (Some(n_expert), Some(n_layer)) => layers_fit(h, heat, n_layer, n_expert),
        _ => true,
    }
}

/// `layer_fits` of the first `n` layers.
pub open spec fn layers_fit(h: &Header, heat: Map<u64, (u64, u64)>, n: u64, n_expert: u64) -> bool {
    forall|il: u64| il < n ==> #[trigger] layer_fits(h, heat, il, n_expert)
}

/// Start of part `k` of an expert.
pub open spec fn slab_start(h: &Header, il: u64, e: u64, k: int, n_expert: u64) -> int {
    let (base, eb) = sized_part(h, il, k, n_expert)->0;
    base + e * eb
}

/// One rendered row.
pub open spec fn row_text(r: ExpertHeat) -> Seq<char> {
    text::digits(r.layer as nat) + " "@ + text::digits(r.expert as nat) + " "@ + text::digits(
        r.count as nat,
    )
}

/// The header line.
pub open spec fn header_text(n_layer: u64, n_expert: u64) -> Seq<char> {
    "# n_layer="@ + text::digits(n_layer as nat) + " n_expert="@ + text::digits(n_expert as nat)
}

/// The first `n` rows, each with its line break.
pub open spec fn rows_text(rows: Seq<ExpertHeat>, n: int) -> Seq<char>
    decreases n,
{
    if n <= 0 {
        Seq::empty()
    } else {
        rows_text(rows, n - 1) + row_text(rows[n - 1]) + "\n"@
    }
}

/// A whole hotlist.
pub open spec fn hotlist_text_of(n_layer: u64, n_expert: u64, rows: Seq<ExpertHeat>) -> Seq<char> {
    header_text(n_layer, n_expert) + "\n"@ + rows_text(rows, rows.len() as int)
}

/// `top` are the hottest of `all`, hottest first, as many as a hotlist
/// keeps.
pub open spec fn hottest_rows(top: Seq<ExpertHeat>, all: Seq<ExpertHeat>) -> bool {
    exists|p: Seq<usize>| #[trigger] ranked_by(p, all) && top == picked(all, p)
}

/// `p` ranks the rows from the hottest on.
pub open spec fn ranked_by(p: Seq<usize>, all: Seq<ExpertHeat>) -> bool {
    sort::ranks(
        sort::flipped(Seq::new(all.len(), |i: int| all[i].count)),
        0,
        all.len() as int,
        p,
    )
}

/// The rows at the first positions of a ranking.
pub open spec fn picked(all: Seq<ExpertHeat>, p: Seq<usize>) -> Seq<ExpertHeat> {
    Seq::new(
        if p.len() < HOTLIST_ROWS { p.len() } else { HOTLIST_ROWS as nat },
        |i: int| all[p[i] as int],
    )
}

fn find_part(h: &Header, il: u64, k: u64, n_expert: u64) -> (r: Option<(u128, u64)>)
    requires
        k < 3,
    ensures
        match r {
            Some(p) => sized_part(h, il, k as int, n_expert) matches Some(q) && p.0 == q.0 && (
            n_expert > 0 ==> p.1 as int / n_expert as int == q.1),
            None => sized_part(h, il, k as int, n_expert) is None,
        },
{
    let part: &str = if k == 0 {
        "ffn_gate_exps.weight"
    } else if k == 1 {
        "ffn_up_exps.weight"
    } else {
        "ffn_down_exps.weight"
    };
    let name = header::blk(il, part);
    match h.tensor(name.as_str()) {
        Some(t) => match t.byte_size {
            Some(b) => Some((h.data_offset as u128 + t.offset as u128, b)),
            None => None,
        },
        None => None,
    }
}

/// A part whose slab size can be taken, and whose start fits; the flag tells
/// a part that does not.
fn read_part(h: &Header, il: u64, k: u64, n_expert: u64) -> (r: (bool, Option<(u64, u64)>))
    requires
        k < 3,
    ensures
        match (r.0, r.1) {
            (true, Some(p)) => n_expert > 0 && sized_part(h, il, k as int, n_expert) == Some(
                (p.0 as int, p.1 as int),
            ),
            (true, None) => sized_part(h, il, k as int, n_expert) is None,
            (false, _) => sized_part(h, il, k as int, n_expert) matches Some(p) && (n_expert == 0
                || p.0 > u64::MAX),
        },
{
    match find_part(h, il, k, n_expert) {
        Some(p) => if n_expert == 0 || p.0 > u64::MAX as u128 {
            (false, None)
        } else {
            (true, Some((p.0 as u64, p.1 / n_expert)))
        },
        None => (true, None),
    }
}

fn count_at(heat: &HashMap<u64, (u64, u64)>, off: u64) -> (c: u64)
    ensures
        c == if heat@.contains_key(off) { heat@[off].0 } else { 0 },
{
    match heat.get(&off) {
        Some(x) => x.0,
        None => 0,
    }
}

fn start_of(base: u64, size: u64, e: u64) -> (r: Option<u64>)
    ensures
        match r {
            Some(n) => n == base + e * size,
            None => base + e * size > u64::MAX,
        },
{
    proof {
        assert(0 <= e * size <= 0xffff_ffff_ffff_ffff * 0xffff_ffff_ffff_ffff)
            by (nonlinear_arith)
            requires
                0 <= e <= 0xffff_ffff_ffff_ffff,
                0 <= size <= 0xffff_ffff_ffff_ffff,
        ;
    }
    let n: u128 = base as u128 + (e as u128) * (size as u128);
    if n > u64::MAX as u128 {
        None
    } else {
        Some(n as u64)
    }
}

/// The three parts of a layer, where all are there.
struct Parts {
    gate: (u64, u64),
    up: (u64, u64),
    down: (u64, u64),
}

spec fn parts_are(p: Parts, h: &Header, il: u64, n_expert: u64) -> bool {
    &&& sized_part(h, il, 0, n_expert) == Some((p.gate.0 as int, p.gate.1 as int))
    &&& sized_part(h, il, 1, n_expert) == Some((p.up.0 as int, p.up.1 as int))
    &&& sized_part(h, il, 2, n_expert) == Some((p.down.0 as int, p.down.1 as int))
}

/// The parts of a layer; the flag tells a layer that does not fit.
fn read_parts(
    h: &Header,
    il: u64,
    n_expert: u64,
    Ghost(heat): Ghost<Map<u64, (u64, u64)>>,
) -> (r: (bool, Option<Parts>))
    ensures
        match (r.0, r.1) {
            (true, Some(p)) => n_expert > 0 && parts_are(p, h, il, n_expert) && (layer_fits(
                h,
                heat,
                il,
                n_expert,
            ) <==> forall|e: u64|
                e < n_expert ==> #[trigger] expert_fits(h, heat, il, e, n_expert)),
            (true, None) => !has_parts(h, il, n_expert) && layer_fits(h, heat, il, n_expert),
            (false, _) => !layer_fits(h, heat, il, n_expert),
        },
{
    let (ok, g) = read_part(h, il, 0, n_expert);
    if !ok || g.is_none() {
        return (ok, None);
    }
    let (ok, u) = read_part(h, il, 1, n_expert);
    if !ok || u.is_none() {
        return (ok, None);
    }
    let (ok, d) = read_part(h, il, 2, n_expert);
    if !ok || d.is_none() {
        return (ok, None);
    }
    (true, Some(Parts { gate: g.unwrap(), up: u.unwrap(), down: d.unwrap() }))
}

fn expert_ok(
    heat: &HashMap<u64, (u64, u64)>,
    e: u64,
    p: &Parts,
    Ghost(h): Ghost<&Header>,
    Ghost(il): Ghost<u64>,
    Ghost(n_expert): Ghost<u64>,
) -> (r: bool)
    requires
        parts_are(*p, h, il, n_expert),
    ensures
        r == expert_fits(h, heat@, il, e, n_expert),
{
    match (
        start_of(p.gate.0, p.gate.1, e),
        start_of(p.up.0, p.up.1, e),
        start_of(p.down.0, p.down.1, e),
    ) {
        (Some(a), Some(b), Some(c)) => {
            let sum: u128 = count_at(heat, a) as u128 + count_at(heat, b) as u128 + count_at(heat, c)
                as u128;
            sum <= u64::MAX as u128
        },
        _ => false,
    }
}

fn layer_ok(h: &Header, heat: &HashMap<u64, (u64, u64)>, il: u64, n_expert: u64) -> (r: bool)
    ensures
        r == layer_fits(h, heat@, il, n_expert),
{
    let p = match read_parts(h, il, n_expert, Ghost(heat@)) {
        (true, Some(p)) => p,
        (ok, _) => {
            return ok;
        },
    };
    let mut e: u64 = 0;
    while e < n_expert
        invariant
            e <= n_expert,
            parts_are(p, h, il, n_expert),
            layer_fits(h, heat@, il, n_expert) <==> forall|x: u64|
                x < n_expert ==> #[trigger] expert_fits(h, heat@, il, x, n_expert),
            forall|x: u64| x < e ==> #[trigger] expert_fits(h, heat@, il, x, n_expert),
        decreases n_expert - e,
    {
        if !expert_ok(heat, e, &p, Ghost(h), Ghost(il), Ghost(n_expert)) {
            return false;
        }
        e = e + 1;
    }
    true
}

/// Test whether a hotlist's offsets and sums stay within 64 bits.
pub fn hotlist_sums_fit(h: &Header, es: &Vec<CensusEntry>) -> (r: bool)
    ensures
        r == hotlist_fits(h, census::by_offset(es@)),
{
    let (n_expert, n_layer): (u64, u64) = match (h.get_num("expert_count"), h.get_num(
        "block_count",
    )) {
        (Some(e), Some(l)) => (e, l),
        _ => {
            return true;
        },
    };
    let heat = census::census_map(es);
    let mut il: u64 = 0;
    while il < n_layer
        invariant
            il <= n_layer,
            h.num("expert_count"@) == Some(n_expert),
            h.num("block_count"@) == Some(n_layer),
            heat@ == census::by_offset(es@),
            forall|x: u64| x < il ==> #[trigger] layer_fits(h, heat@, x, n_expert),
        decreases n_layer - il,
    {
        if !layer_ok(h, &heat, il, n_expert) {
            return false;
        }
        il = il + 1;
    }
    true
}

fn collect_rows(h: &Header, heat: &HashMap<u64, (u64, u64)>, n_layer: u64, n_expert: u64) -> (rows:
    Vec<ExpertHeat>)
    requires
        h.num("expert_count"@) == Some(n_expert),
        h.num("block_count"@) == Some(n_layer),
        hotlist_fits(h, heat@),
    ensures
        rows@ == model_rows(h, heat@, n_expert, n_layer as int),
{
    let mut rows: Vec<ExpertHeat> = Vec::new();
    let mut il: u64 = 0;
    while il < n_layer
        invariant
            il <= n_layer,
            h.num("expert_count"@) == Some(n_expert),
            h.num("block_count"@) == Some(n_layer),
            hotlist_fits(h, heat@),
            rows@ == model_rows(h, heat@, n_expert, il as int),
        decreases n_layer - il,
    {
        let ghost head = rows@;
        assert(((il + 1) - 1) as u64 == il);
        assert(layer_fits(h, heat@, il, n_expert));
        if let (_, Some(p)) = read_parts(h, il, n_expert, Ghost(heat@)) {
            let (gb, ge) = p.gate;
            let (ub, ue) = p.up;
            let (db, de) = p.down;
            let mut e: u64 = 0;
            assert(head + Seq::<ExpertHeat>::empty() =~= head);
            while e < n_expert
                invariant
                    e <= n_expert,
                    il < n_layer,
                    h.num("expert_count"@) == Some(n_expert),
                    h.num("block_count"@) == Some(n_layer),
                    layer_fits(h, heat@, il, n_expert),
                    has_parts(h, il, n_expert),
                    sized_part(h, il, 0, n_expert) == Some((gb as int, ge as int)),
                    sized_part(h, il, 1, n_expert) == Some((ub as int, ue as int)),
                    sized_part(h, il, 2, n_expert) == Some((db as int, de as int)),
                    rows@ == head + layer_rows(h, heat@, il, n_expert, e as int),
                decreases n_expert - e,
            {
                proof {
                    assert(expert_fits(h, heat@, il, e, n_expert));
                    assert(0 <= e * ge) by (nonlinear_arith);
                    assert(0 <= e * ue) by (nonlinear_arith);
                    assert(0 <= e * de) by (nonlinear_arith);
                }
                let c0: u64 = count_at(heat, gb + e * ge);
                let c1: u64 = count_at(heat, ub + e * ue);
                let c2: u64 = count_at(heat, db + e * de);
                assert(((e + 1) - 1) as u64 == e);
                let c: u64 = c0 + c1 + c2;
                if c > 0 {
                    rows.push(ExpertHeat { layer: il, expert: e, count: c });
                    assert(rows@ =~= head + layer_rows(h, heat@, il, n_expert, e + 1));
                }
                e = e + 1;
            }
        }
        il = il + 1;
    }
    rows
}

fn push_row(out: &mut String, r: ExpertHeat)
    ensures
        final(out)@ == old(out)@ + row_text(r) + "\n"@,
{
    let ghost was = out@;
    text::push_decimal(out, r.layer);
    out.append(" ");
    text::push_decimal(out, r.expert);
    out.append(" ");
    text::push_decimal(out, r.count);
    out.append("\n");
    assert(out@ =~= was + row_text(r) + "\n"@);
}

/// Render a hotlist.
pub fn render_hotlist(n_layer: u64, n_expert: u64, rows: &Vec<ExpertHeat>) -> (s: String)
    ensures
        s@ == hotlist_text_of(n_layer, n_expert, rows@),
{
    let mut out = String::from_str("# n_layer=");
    text::push_decimal(&mut out, n_layer);
    out.append(" n_expert=");
    text::push_decimal(&mut out, n_expert);
    out.append("\n");
    let ghost head = out@;
    let mut i: usize = 0;
    assert(head + Seq::<char>::empty() =~= head);
    while i < rows.len()
        invariant
            i <= rows@.len(),
            out@ == head + rows_text(rows@, i as int),
        decreases rows@.len() - i,
    {
        let ghost was = out@;
        push_row(&mut out, rows[i]);
        assert(out@ =~= head + rows_text(rows@, i + 1));
        i = i + 1;
    }
    assert(out@ =~= hotlist_text_of(n_layer, n_expert, rows@));
    out
}

fn top_rows(all: &Vec<ExpertHeat>) -> (top: Vec<ExpertHeat>)
    ensures
        hottest_rows(top@, all@),
{
    let mut keys: Vec<u64> = Vec::new();
    let mut i: usize = 0;
    while i < all.len()
        invariant
            i <= all@.len(),
            keys@ =~= Seq::new(all@.len(), |k: int| all@[k].count).take(i as int),
        decreases all@.len() - i,
    {
        keys.push(all[i].count);
        i = i + 1;
    }
    assert(keys@ =~= Seq::new(all@.len(), |k: int| all@[k].count));
    let p = sort::rank_desc(&keys);
    let n: usize = if p.len() < HOTLIST_ROWS { p.len() } else { HOTLIST_ROWS };
    let mut top: Vec<ExpertHeat> = Vec::new();
    let mut j: usize = 0;
    while j < n
        invariant
            j <= n,
            n <= p@.len(),
            n == picked(all@, p@).len(),
            ranked_by(p@, all@),
            top@ =~= picked(all@, p@).take(j as int),
        decreases n - j,
    {
        top.push(all[p[j]]);
        j = j + 1;
    }
    assert(top@ =~= picked(all@, p@));
    top
}

/// Turn a model's census back into heat by index and render it.
pub fn hotlist_text(h: &Header, es: &Vec<CensusEntry>) -> (r: Result<String, HotlistError>)
    requires
        hotlist_fits(h, census::by_offset(es@)),
    ensures
        match r {
            Ok(s) => {
                &&& h.num("expert_count"@) is Some
                &&& h.num("block_count"@) is Some
                &&& es@.len() > 0
                &&& exists|rows: Seq<ExpertHeat>| #[trigger]
                    hottest_rows(
                        rows,
                        model_rows(
                            h,
                            census::by_offset(es@),
                            h.num("expert_count"@)->0,
                            h.num("block_count"@)->0 as int,
                        ),
                    ) && s@ == hotlist_text_of(
                        h.num("block_count"@)->0,
                        h.num("expert_count"@)->0,
                        rows,
                    )
            },
            Err(HotlistError::NoExpertCount) => h.num("expert_count"@) is None,
            Err(HotlistError::NoBlockCount) => h.num("expert_count"@) is Some && h.num(
                "block_count"@,
            ) is None,
            Err(HotlistError::NoCensus) => h.num("expert_count"@) is Some && h.num(
                "block_count"@,
            ) is Some && es@.len() == 0,
        },
{
    let n_expert: u64 = match h.get_num("expert_count") {
        Some(n) => n,
        None => {
            return Err(HotlistError::NoExpertCount);
        },
    };
    let n_layer: u64 = match h.get_num("block_count") {
        Some(n) => n,
        None => {
            return Err(HotlistError::NoBlockCount);
        },
    };
    if es.len() == 0 {
        return Err(HotlistError::NoCensus);
    }
    let heat = census::census_map(es);
    let all = collect_rows(h, &heat, n_layer, n_expert);
    let top = top_rows(&all);
    let out = render_hotlist(n_layer, n_expert, &top);
    Ok(out)
}

proof fn lemma_digits_word(n: nat)
    ensures
        words::is_word(text::digits(n)),
        forall|k: int| 0 <= k < text::digits(n).len() ==> #[trigger] text::digits(n)[k] != '\n',
        text::digits(n)[0] != 's',
{
    text::lemma_digits_are_digits(n);
    let d = text::digits(n);
    assert forall|k: int| 0 <= k < d.len() implies !words::is_white(#[trigger] d[k]) && d[k]
        != '\n' by {
        assert(text::is_digit(d[k]));
    }
    assert(text::is_digit(d[0]));
}

proof fn lemma_row_reads_back(r: ExpertHeat)
    requires
        r.layer <= usize::MAX,
    ensures
        row_in(row_text(r)) == Some(
            HotRow { layer: r.layer as usize, sink: false, idx: r.expert, count: r.count },
        ),
        forall|k: int| 0 <= k < row_text(r).len() ==> #[trigger] row_text(r)[k] != '\n',
{
    let a = text::digits(r.layer as nat);
    let b = text::digits(r.expert as nat);
    let c = text::digits(r.count as nat);
    lemma_digits_word(r.layer as nat);
    lemma_digits_word(r.expert as nat);
    lemma_digits_word(r.count as nat);
    reveal_strlit(" ");
    assert(" "@ =~= seq![' ']);
    words::three_words_split(a, b, c);
    text::decimal_round_trip(r.layer as nat);
    text::decimal_round_trip(r.expert as nat);
    text::decimal_round_trip(r.count as nat);
    let s = row_text(r);
    assert forall|k: int| 0 <= k < s.len() implies #[trigger] s[k] != '\n' by {
        let x = a.len() as int;
        let y = x + 1 + b.len();
        if k < x {
            assert(s[k] == a[k]);
        } else if x < k < y {
            assert(s[k] == b[k - x - 1]);
        } else if k > y {
            assert(s[k] == c[k - y - 1]);
        }
    }
}

proof fn lemma_header_reads_back(n_layer: u64, n_expert: u64)
    ensures
        field_of(words::words(header_text(n_layer, n_expert)), "n_layer="@) == Some(n_layer as nat),
        field_of(words::words(header_text(n_layer, n_expert)), "n_expert="@) == Some(
            n_expert as nat,
        ),
        forall|k: int|
            0 <= k < header_text(n_layer, n_expert).len() ==> #[trigger] header_text(
                n_layer,
                n_expert,
            )[k] != '\n',
{
    let l = text::digits(n_layer as nat);
    let e = text::digits(n_expert as nat);
    lemma_digits_word(n_layer as nat);
    lemma_digits_word(n_expert as nat);
    text::decimal_round_trip(n_expert as nat);
    text::decimal_round_trip(n_layer as nat);
    reveal_strlit("# n_layer=");
    reveal_strlit("n_layer=");
    reveal_strlit(" n_expert=");
    reveal_strlit("n_expert=");
    let w0 = seq!['#'];
    let p1 = seq!['n', '_', 'l', 'a', 'y', 'e', 'r', '='];
    let p2 = seq!['n', '_', 'e', 'x', 'p', 'e', 'r', 't', '='];
    let w1 = p1 + l;
    let w2 = p2 + e;
    assert("n_expert="@ =~= p2);
    assert("n_layer="@ =~= p1);
    assert("# n_layer="@ =~= w0 + seq![' '] + p1);
    assert(" n_expert="@ =~= seq![' '] + p2);
    let s = header_text(n_layer, n_expert);
    assert(s =~= w0 + seq![' '] + w1 + seq![' '] + w2);
    assert(words::is_word(w0));
    assert(words::is_word(w1)) by {
        assert forall|k: int| 0 <= k < w1.len() implies !words::is_white(#[trigger] w1[k]) by {
            if k >= 8 {
                assert(w1[k] == l[k - 8]);
            } else {
                assert(w1[k] == p1[k]);
            }
        }
    }
    assert(words::is_word(w2)) by {
        assert forall|k: int| 0 <= k < w2.len() implies !words::is_white(#[trigger] w2[k]) by {
            if k >= 9 {
                assert(w2[k] == e[k - 9]);
            } else {
                assert(w2[k] == p2[k]);
            }
        }
    }
    words::three_words_split(w0, w1, w2);
    let ws = seq![w0, w1, w2];
    assert(!text::begins_with(w0, p2));
    assert(!text::begins_with(w1, p2)) by {
        if text::begins_with(w1, p2) {
            assert(w1.take(9)[2] == p2[2]);
            assert(w1[2] == 'l');
        }
    }
    assert(w2.take(9) =~= p2);
    assert(w2.skip(9) =~= e);
    assert(!text::begins_with(w0, p1));
    assert(w1.take(8) =~= p1);
    assert(w1.skip(8) =~= l);
    assert(ws.drop_first() =~= seq![w1, w2]);
    assert(ws.drop_first().drop_first() =~= seq![w2]);
    reveal_with_fuel(field_of, 4);
    assert forall|k: int| 0 <= k < s.len() implies #[trigger] s[k] != '\n' by {
        let t = w0 + seq![' '] + w1 + seq![' '] + w2;
        let x = 2 + w1.len();
        if 2 <= k < x {
            assert(t[k] == w1[k - 2]);
            assert(!words::is_white(w1[k - 2]));
        } else if k > x {
            assert(t[k] == w2[k - x - 1]);
            assert(!words::is_white(w2[k - x - 1]));
        }
    }
}

proof fn lemma_rows_read_back(rows: Seq<ExpertHeat>, n: int, tail: Seq<char>)
    requires
        0 <= n <= rows.len(),
        forall|i: int| 0 <= i < rows.len() ==> (#[trigger] rows[i]).layer <= usize::MAX,
    ensures
        words::lines(rows_text(rows, n) + tail) == Seq::new(n as nat, |i: int| row_text(rows[i]))
            + words::lines(tail),
    decreases n,
{
    if n == 0 {
        assert(rows_text(rows, n) + tail =~= tail);
        assert(Seq::new(0, |i: int| row_text(rows[i])) + words::lines(tail) =~= words::lines(tail));
    } else {
        let line = row_text(rows[n - 1]);
        reveal_strlit("\n");
        assert("\n"@ =~= seq!['\n']);
        lemma_row_reads_back(rows[n - 1]);
        words::first_line_splits_off(line, tail);
        let t2 = line + seq!['\n'] + tail;
        lemma_rows_read_back(rows, n - 1, t2);
        assert(rows_text(rows, n) + tail =~= rows_text(rows, n - 1) + t2);
        assert(Seq::new(n as nat, |i: int| row_text(rows[i])) + words::lines(tail) =~= Seq::new(
            (n - 1) as nat,
            |i: int| row_text(rows[i]),
        ) + (seq![line] + words::lines(tail)));
    }
}

/// A rendered hotlist reads back: its header names the layer and expert
/// counts, and its lines are the rows that were written.
pub proof fn hotlist_round_trip(n_layer: u64, n_expert: u64, rows: Seq<ExpertHeat>)
    requires
        forall|i: int| 0 <= i < rows.len() ==> (#[trigger] rows[i]).layer <= usize::MAX,
    ensures
        ({
            let ls = words::lines(hotlist_text_of(n_layer, n_expert, rows));
            &&& ls.len() == rows.len() + 1
            &&& field_of(words::words(ls[0]), "n_layer="@) == Some(n_layer as nat)
            &&& field_of(words::words(ls[0]), "n_expert="@) == Some(n_expert as nat)
            &&& forall|i: int|
                0 <= i < rows.len() ==> row_in(ls[i + 1]) == Some(
                    HotRow {
                        layer: (#[trigger] rows[i]).layer as usize,
                        sink: false,
                        idx: rows[i].expert,
                        count: rows[i].count,
                    },
                )
        }),
{
    let head = header_text(n_layer, n_expert);
    let body = rows_text(rows, rows.len() as int);
    lemma_header_reads_back(n_layer, n_expert);
    reveal_strlit("\n");
    assert("\n"@ =~= seq!['\n']);
    words::first_line_splits_off(head, body);
    lemma_rows_read_back(rows, rows.len() as int, Seq::empty());
    assert(body + Seq::<char>::empty() =~= body);
    assert(words::lines(Seq::empty()) =~= Seq::<Seq<char>>::empty());
    let ls = words::lines(hotlist_text_of(n_layer, n_expert, rows));
    assert(ls =~= seq![head] + Seq::new(rows.len(), |i: int| row_text(rows[i])));
    assert forall|i: int| 0 <= i < rows.len() implies row_in(ls[i + 1]) == Some(
        HotRow {
            layer: (#[trigger] rows[i]).layer as usize,
            sink: false,
            idx: rows[i].expert,
            count: rows[i].count,
        },
    ) by {
        lemma_row_reads_back(rows[i]);
        assert(ls[i + 1] == row_text(rows[i]));
    }
}

} // verus!
