//! Lists that a run reads and writes: slots and terms of the processor's
//! lane, comma-separated numbers, and rows of logits.

use vstd::prelude::*;

use crate::bytes;
use crate::census;
use crate::lanes;
use crate::lanes::Term;
use crate::session;
use crate::text;
use crate::words;

verus! {

/// The slots of an expert are those that select it, in order.
pub proof fn slots_select_their_expert(selected: Seq<i32>, e: u32, n: int)
    requires
        0 <= n <= selected.len(),
        n <= usize::MAX,
    ensures
        ({
            let v = lanes::slots_of(selected, e, n);
            &&& forall|s: usize| #[trigger] v.contains(s) <==> s < n && selected[s as int] == e
            &&& forall|i: int, j: int| 0 <= i < j < v.len() ==> #[trigger] v[i] < #[trigger] v[j]
        }),
    decreases n,
{
    if n > 0 {
        slots_select_their_expert(selected, e, n - 1);
        let a = lanes::slots_of(selected, e, n - 1);
        let v = lanes::slots_of(selected, e, n);
        let last = (n - 1) as usize;
        assert forall|s: usize| #[trigger] v.contains(s) <==> s < n && selected[s as int] == e by {
            if a.contains(s) {
                let k = choose|k: int| 0 <= k < a.len() && a[k] == s;
                assert(v[k] == s);
            }
            if v.contains(s) {
                let k = choose|k: int| 0 <= k < v.len() && v[k] == s;
                if k < a.len() {
                    assert(a[k] == s);
                }
            }
            if s == last && selected[n - 1] == e {
                assert(v[a.len() as int] == s);
            }
        }
        assert forall|i: int, j: int| 0 <= i < j < v.len() implies #[trigger] v[i] < #[trigger] v[j] by {
            if j < a.len() {
                assert(a[i] < a[j]);
            } else {
                assert(a.contains(a[i]));
            }
        }
    }
}

proof fn lemma_terms_in(
    slots: Seq<usize>,
    n_used: usize,
    tok: usize,
    expert: int,
    base: nat,
    n: int,
)
    requires
        0 <= n <= slots.len(),
        0 <= expert <= usize::MAX,
        base + n <= usize::MAX,
    ensures
        forall|t: Term| #[trigger]
            lanes::terms_in(slots, n_used, tok, expert, base, n).contains(t) <==> t.expert == expert
                && base <= t.mid < base + n && slots[t.mid - base] as int / n_used as int == tok,
    decreases n,
{
    if n > 0 {
        lemma_terms_in(slots, n_used, tok, expert, base, n - 1);
        let a = lanes::terms_in(slots, n_used, tok, expert, base, n - 1);
        let v = lanes::terms_in(slots, n_used, tok, expert, base, n);
        let x = Term { expert: expert as usize, mid: (base + n - 1) as usize };
        assert forall|t: Term| #[trigger] v.contains(t) <==> t.expert == expert && base <= t.mid < base
            + n && slots[t.mid - base] as int / n_used as int == tok by {
            if a.contains(t) {
                let k = choose|k: int| 0 <= k < a.len() && a[k] == t;
                assert(v[k] == t);
            }
            if slots[n - 1] as int / n_used as int == tok {
                assert(v[a.len() as int] == x);
            }
            if v.contains(t) {
                let k = choose|k: int| 0 <= k < v.len() && v[k] == t;
                if k < a.len() {
                    assert(a[k] == t);
                }
            }
            if t.expert == expert && t.mid == base + n - 1 {
                assert(t == x);
            }
        }
    }
}

proof fn lemma_base_grows(slots: Seq<Vec<usize>>, a: int, b: int)
    requires
        0 <= a <= b <= slots.len(),
    ensures
        lanes::mid_base(slots, a) <= lanes::mid_base(slots, b),
    decreases b - a,
{
    if a < b {
        lemma_base_grows(slots, a, b - 1);
    }
}

/// A token's terms are the rows of its slots: of every lane expert, those
/// slots that are the token's, at the row that the slots of the experts
/// before it leave for it.
pub proof fn terms_are_the_slots_of_a_token(
    slots: Seq<Vec<usize>>,
    n_used: usize,
    tok: usize,
    n: int,
)
    requires
        0 <= n <= slots.len(),
        n <= usize::MAX,
        lanes::mid_base(slots, n) <= usize::MAX,
    ensures
        forall|t: Term| #[trigger]
            lanes::terms_of(slots, n_used, tok, n).contains(t) <==> t.expert < n && lanes::mid_base(
                slots,
                t.expert as int,
            ) <= t.mid < lanes::mid_base(slots, t.expert as int) + slots[t.expert as int]@.len()
                && slots[t.expert as int]@[t.mid - lanes::mid_base(slots, t.expert as int)] as int
                / n_used as int == tok,
    decreases n,
{
    if n > 0 {
        lemma_base_grows(slots, n - 1, n);
        terms_are_the_slots_of_a_token(slots, n_used, tok, n - 1);
        let base = lanes::mid_base(slots, n - 1);
        let s = slots[n - 1]@;
        lemma_terms_in(s, n_used, tok, n - 1, base, s.len() as int);
        let a = lanes::terms_of(slots, n_used, tok, n - 1);
        let b = lanes::terms_in(s, n_used, tok, n - 1, base, s.len() as int);
        let v = lanes::terms_of(slots, n_used, tok, n);
        assert forall|t: Term| #[trigger] v.contains(t) <==> a.contains(t) || b.contains(t) by {
            if a.contains(t) {
                let k = choose|k: int| 0 <= k < a.len() && a[k] == t;
                assert(v[k] == t);
            }
            if b.contains(t) {
                let k = choose|k: int| 0 <= k < b.len() && b[k] == t;
                assert(v[a.len() + k] == t);
            }
            if v.contains(t) {
                let k = choose|k: int| 0 <= k < v.len() && v[k] == t;
                if k < a.len() {
                    assert(a[k] == t);
                } else {
                    assert(b[k - a.len()] == t);
                }
            }
        }
    }
}

/// A setting of the lane's threads: nothing, a zero and a word mean none; a
/// one and another word half the cores but two, and one at least; a number
/// means itself.
pub proof fn threads_follow_the_setting(cores: usize, v: Seq<char>)
    ensures
        lanes::threads_of(""@, cores) is None,
        lanes::threads_of("0"@, cores) is None,
        lanes::threads_of("off"@, cores) is None,
        ({
            let half = cores as int / 2;
            let n = lanes::threads_of("on"@, cores);
            &&& n == lanes::threads_of("1"@, cores)
            &&& n is Some
            &&& half >= 4 ==> n->0 == half - 2
            &&& half < 4 ==> n->0 == 1
        }),
        v != ""@ && v != "0"@ && v != "off"@ && v != "1"@ && v != "on"@ ==> (match text::number_upto(
            v,
            usize::MAX as nat,
        ) {
            Some(n) => lanes::threads_of(v, cores) == Some(n as usize),
            None => lanes::threads_of(v, cores) is None,
        }),
{
    reveal_strlit("");
    reveal_strlit("0");
    reveal_strlit("off");
    reveal_strlit("1");
    reveal_strlit("on");
    assert("1"@[0] != "0"@[0]);
    assert("on"@.len() == 2 && "off"@.len() == 3 && "1"@.len() == 1 && ""@.len() == 0);
}

/// What a run adds to a slab's count, and what it was seeded with, make the
/// touches it ends with.
pub proof fn runs_add_what_they_touch(
    touch: Map<u64, (u64, u64)>,
    seeds: Map<u64, u64>,
    off: u64,
)
    ensures
        seeds.contains_key(off) && touch[off].0 >= seeds[off] ==> census::run_delta(
            touch,
            seeds,
            off,
        ) + seeds[off] == touch[off].0,
        seeds.contains_key(off) && touch[off].0 < seeds[off] ==> census::run_delta(
            touch,
            seeds,
            off,
        ) == 0,
        !seeds.contains_key(off) ==> census::run_delta(touch, seeds, off) == touch[off].0,
{
}

proof fn lemma_comma(s: Seq<char>, i: int)
    requires
        0 <= i <= s.len(),
    ensures
        i <= session::comma_after(s, i) <= s.len(),
        forall|k: int| i <= k < session::comma_after(s, i) ==> #[trigger] s[k] != ',',
        session::comma_after(s, i) < s.len() ==> s[session::comma_after(s, i)] == ',',
    decreases s.len() - i,
{
    if i < s.len() && s[i] != ',' {
        lemma_comma(s, i + 1);
    }
}

/// A list is split at its commas: text without one is one item, and what
/// stands before the first is the first item; no item keeps white space at
/// its ends.
pub proof fn lists_split_at_commas(s: Seq<char>, i: int, c: int)
    requires
        0 <= i <= c <= s.len(),
        forall|k: int| i <= k < c ==> #[trigger] s[k] != ',',
        c < s.len() ==> s[c] == ',',
    ensures
        c == s.len() ==> session::items_from(s, i) == seq![words::trimmed(s.subrange(i, c))],
        c < s.len() ==> session::items_from(s, i) == seq![words::trimmed(s.subrange(i, c))]
            + session::items_from(s, c + 1),
        session::items(s) == session::items_from(s, 0),
{
    lemma_comma(s, i);
    let e = session::comma_after(s, i);
    if e < c {
        assert(s[e] != ',');
    }
    if c < e {
        assert(s[c] != ',');
    }
}

/// A list of numbers is refused for its first item that is none, and only
/// for one.
pub proof fn lists_are_refused_for_an_item(parts: Seq<Seq<char>>, max: nat)
    ensures
        match session::first_bad(parts, max) {
            Some(p) => exists|i: int|
                0 <= i < parts.len() && #[trigger] parts[i] == p && text::number_upto(p, max) is None
                    && forall|j: int|
                    0 <= j < i ==> text::number_upto(#[trigger] parts[j], max) is Some,
            None => forall|j: int|
                0 <= j < parts.len() ==> text::number_upto(#[trigger] parts[j], max) is Some,
        },
    decreases parts.len(),
{
    if parts.len() > 0 {
        let rest = parts.drop_first();
        lists_are_refused_for_an_item(rest, max);
        if text::number_upto(parts[0], max) is None {
            assert(parts[0] == parts[0]);
        } else {
            match session::first_bad(parts, max) {
                Some(p) => {
                    let i = choose|i: int|
                        0 <= i < rest.len() && #[trigger] rest[i] == p && text::number_upto(
                            p,
                            max,
                        ) is None && forall|j: int|
                            0 <= j < i ==> text::number_upto(#[trigger] rest[j], max) is Some;
                    assert(parts[i + 1] == p);
                    assert forall|j: int| 0 <= j < i + 1 implies text::number_upto(
                        #[trigger] parts[j],
                        max,
                    ) is Some by {
                        if j > 0 {
                            assert(rest[j - 1] == parts[j]);
                        }
                    }
                },
                None => {
                    assert forall|j: int| 0 <= j < parts.len() implies text::number_upto(
                        #[trigger] parts[j],
                        max,
                    ) is Some by {
                        if j > 0 {
                            assert(rest[j - 1] == parts[j]);
                        }
                    }
                },
            }
        }
    }
}

/// A row of logits is dumped value by value, four bytes each, low byte
/// first.
pub proof fn rows_are_dumped_in_order(row: Seq<u32>, n: int, i: int)
    requires
        0 <= i < n <= row.len(),
    ensures
        session::row_bytes(row, n).len() == 4 * n,
        session::row_bytes(row, n).subrange(4 * i, 4 * i + 4) == bytes::le_bytes(row[i] as nat, 4),
    decreases n,
{
    let a = session::row_bytes(row, n - 1);
    let b = bytes::le_bytes(row[n - 1] as nat, 4);
    bytes::lemma_le_len(row[n - 1] as nat, 4);
    lemma_row_len(row, n - 1);
    let v = session::row_bytes(row, n);
    if i < n - 1 {
        rows_are_dumped_in_order(row, n - 1, i);
        assert(v.subrange(4 * i, 4 * i + 4) =~= a.subrange(4 * i, 4 * i + 4));
    } else {
        assert(v.subrange(4 * i, 4 * i + 4) =~= b);
    }
}

proof fn lemma_row_len(row: Seq<u32>, n: int)
    requires
        0 <= n <= row.len(),
    ensures
        session::row_bytes(row, n).len() == 4 * n,
    decreases n,
{
    if n > 0 {
        lemma_row_len(row, n - 1);
        bytes::lemma_le_len(row[n - 1] as nat, 4);
    }
}

} // verus!
