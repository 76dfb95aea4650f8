//! Lines and words of a text, as spans of its characters.

use vstd::prelude::*;

use crate::text;

verus! {

/// Characters that separate words (Unicode white space).
pub open spec fn is_white(c: char) -> bool {
    let u = c as u32;
    ||| 0x9 <= u <= 0xd
    ||| u == 0x20
    ||| u == 0x85
    ||| u == 0xa0
    ||| u == 0x1680
    ||| 0x2000 <= u <= 0x200a
    ||| u == 0x2028
    ||| u == 0x2029
    ||| u == 0x202f
    ||| u == 0x205f
    ||| u == 0x3000
}

/// True of characters that separate words.
pub fn white(c: char) -> (r: bool)
    ensures
        r == is_white(c),
{
    let u: u32 = c as u32;
    (0x9 <= u && u <= 0xd) || u == 0x20 || u == 0x85 || u == 0xa0 || u == 0x1680 || (0x2000 <= u && u
        <= 0x200a) || u == 0x2028 || u == 0x2029 || u == 0x202f || u == 0x205f || u == 0x3000
}

/// First position from `i` on that is not white, or the end.
pub open spec fn skip_white(s: Seq<char>, i: int) -> int
    decreases s.len() - i,
{
    if i < s.len() && is_white(s[i]) {
        skip_white(s, i + 1)
    } else {
        i
    }
}

/// First white position from `i` on, or the end.
pub open spec fn word_end(s: Seq<char>, i: int) -> int
    decreases s.len() - i,
{
    if i < s.len() && !is_white(s[i]) {
        word_end(s, i + 1)
    } else {
        i
    }
}

pub proof fn lemma_skip_white(s: Seq<char>, i: int)
    requires
        0 <= i <= s.len(),
    ensures
        i <= skip_white(s, i) <= s.len(),
        skip_white(s, i) < s.len() ==> !is_white(s[skip_white(s, i)]),
        forall|k: int| i <= k < skip_white(s, i) ==> is_white(#[trigger] s[k]),
    decreases s.len() - i,
{
    if i < s.len() && is_white(s[i]) {
        lemma_skip_white(s, i + 1);
    }
}

pub proof fn lemma_word_end(s: Seq<char>, i: int)
    requires
        0 <= i <= s.len(),
    ensures
        i <= word_end(s, i) <= s.len(),
        i < s.len() && !is_white(s[i]) ==> i < word_end(s, i),
        word_end(s, i) < s.len() ==> is_white(s[word_end(s, i)]),
        forall|k: int| i <= k < word_end(s, i) ==> !is_white(#[trigger] s[k]),
    decreases s.len() - i,
{
    if i < s.len() && !is_white(s[i]) {
        lemma_word_end(s, i + 1);
    }
}

/// The words of `s` from position `i` on.
pub open spec fn words_from(s: Seq<char>, i: int) -> Seq<Seq<char>>
    decreases s.len() - i,
    when 0 <= i <= s.len()
{
    proof {
        lemma_skip_white(s, i);
        lemma_word_end(s, skip_white(s, i));
    }
    let a = skip_white(s, i);
    if a >= s.len() {
        Seq::empty()
    } else {
        seq![s.subrange(a, word_end(s, a))] + words_from(s, word_end(s, a))
    }
}

/// The words of `s`.
pub open spec fn words(s: Seq<char>) -> Seq<Seq<char>> {
    words_from(s, 0)
}

/// First line break from `i` on, or the end.
pub open spec fn line_end(s: Seq<char>, i: int) -> int
    decreases s.len() - i,
{
    if i < s.len() && s[i] != '\n' {
        line_end(s, i + 1)
    } else {
        i
    }
}

pub proof fn lemma_line_end(s: Seq<char>, i: int)
    requires
        0 <= i <= s.len(),
    ensures
        i <= line_end(s, i) <= s.len(),
        line_end(s, i) < s.len() ==> s[line_end(s, i)] == '\n',
        forall|k: int| i <= k < line_end(s, i) ==> #[trigger] s[k] != '\n',
    decreases s.len() - i,
{
    if i < s.len() && s[i] != '\n' {
        lemma_line_end(s, i + 1);
    }
}

/// The lines of `s` from position `i` on, without their breaks. A break at
/// the very end starts no further line; a carriage return before one stays,
/// as white space.
pub open spec fn lines_from(s: Seq<char>, i: int) -> Seq<Seq<char>>
    decreases s.len() + 1 - i,
    when 0 <= i
{
    proof {
        if i <= s.len() {
            lemma_line_end(s, i);
        }
    }
    if i >= s.len() {
        Seq::empty()
    } else {
        seq![s.subrange(i, line_end(s, i))] + lines_from(s, line_end(s, i) + 1)
    }
}

/// The lines of `s`.
pub open spec fn lines(s: Seq<char>) -> Seq<Seq<char>> {
    lines_from(s, 0)
}

proof fn lemma_line_end_shift(s: Seq<char>, i: int, k: int)
    requires
        0 <= i <= s.len(),
        0 <= k,
        i + k <= s.len(),
    ensures
        line_end(s, i + k) == line_end(s.skip(i), k) + i,
    decreases s.len() - i - k,
{
    if i + k < s.len() && s[i + k] != '\n' {
        assert(s.skip(i)[k] == s[i + k]);
        lemma_line_end_shift(s, i, k + 1);
    }
}

proof fn lemma_lines_shift(s: Seq<char>, i: int, k: int)
    requires
        0 <= i <= s.len(),
        0 <= k,
    ensures
        lines_from(s, i + k) == lines_from(s.skip(i), k),
    decreases s.len() + 1 - i - k,
{
    if i + k < s.len() {
        let t = s.skip(i);
        lemma_line_end_shift(s, i, k);
        lemma_line_end(t, k);
        let e = line_end(t, k);
        lemma_lines_shift(s, i, e + 1);
        assert(s.subrange(i + k, i + e) =~= t.subrange(k, e));
        assert(i + (e + 1) == line_end(s, i + k) + 1);
    }
}

proof fn lemma_line_end_at(s: Seq<char>, i: int, e: int)
    requires
        0 <= i <= e < s.len(),
        s[e] == '\n',
        forall|k: int| i <= k < e ==> #[trigger] s[k] != '\n',
    ensures
        line_end(s, i) == e,
    decreases e - i,
{
    if i < e {
        lemma_line_end_at(s, i + 1, e);
    }
}

/// A text that starts with a line and its break has that line first, then
/// the lines of the rest.
pub proof fn first_line_splits_off(line: Seq<char>, rest: Seq<char>)
    requires
        forall|k: int| 0 <= k < line.len() ==> #[trigger] line[k] != '\n',
    ensures
        lines(line + seq!['\n'] + rest) == seq![line] + lines(rest),
{
    let s = line + seq!['\n'] + rest;
    let n = line.len() as int;
    assert(s[n] == '\n');
    assert forall|k: int| 0 <= k < n implies #[trigger] s[k] != '\n' by {
        assert(s[k] == line[k]);
    }
    lemma_line_end_at(s, 0, n);
    assert(s.subrange(0, n) =~= line);
    lemma_lines_shift(s, n + 1, 0);
    assert(s.skip(n + 1) =~= rest);
}

/// A run of characters without white space.
pub open spec fn is_word(w: Seq<char>) -> bool {
    w.len() > 0 && forall|k: int| 0 <= k < w.len() ==> !is_white(#[trigger] w[k])
}

proof fn lemma_skip_white_at(s: Seq<char>, i: int, a: int)
    requires
        0 <= i <= a <= s.len(),
        a < s.len() ==> !is_white(s[a]),
        forall|k: int| i <= k < a ==> is_white(#[trigger] s[k]),
    ensures
        skip_white(s, i) == a,
    decreases a - i,
{
    if i < a {
        lemma_skip_white_at(s, i + 1, a);
    }
}

proof fn lemma_word_end_at(s: Seq<char>, i: int, b: int)
    requires
        0 <= i <= b <= s.len(),
        b < s.len() ==> is_white(s[b]),
        forall|k: int| i <= k < b ==> !is_white(#[trigger] s[k]),
    ensures
        word_end(s, i) == b,
    decreases b - i,
{
    if i < b {
        lemma_word_end_at(s, i + 1, b);
    }
}

/// Three words with one blank between them are those three words.
pub proof fn three_words_split(a: Seq<char>, b: Seq<char>, c: Seq<char>)
    requires
        is_word(a),
        is_word(b),
        is_word(c),
    ensures
        words(a + seq![' '] + b + seq![' '] + c) == seq![a, b, c],
{
    let s = a + seq![' '] + b + seq![' '] + c;
    let x = a.len() as int;
    let y = x + 1 + b.len();
    let z = y + 1 + c.len();
    assert(s.len() == z);
    assert(s[x] == ' ');
    assert(s[y] == ' ');
    assert forall|k: int| 0 <= k < x implies !is_white(#[trigger] s[k]) by {
        assert(s[k] == a[k]);
    }
    assert forall|k: int| x + 1 <= k < y implies !is_white(#[trigger] s[k]) by {
        assert(s[k] == b[k - x - 1]);
    }
    assert forall|k: int| y + 1 <= k < z implies !is_white(#[trigger] s[k]) by {
        assert(s[k] == c[k - y - 1]);
    }
    lemma_skip_white_at(s, 0, 0);
    lemma_word_end_at(s, 0, x);
    lemma_skip_white_at(s, x, x + 1);
    lemma_word_end_at(s, x + 1, y);
    lemma_skip_white_at(s, y, y + 1);
    lemma_word_end_at(s, y + 1, z);
    lemma_skip_white_at(s, z, z);
    assert(s.subrange(0, x) =~= a);
    assert(s.subrange(x + 1, y) =~= b);
    assert(s.subrange(y + 1, z) =~= c);
    assert(words_from(s, z) =~= Seq::<Seq<char>>::empty());
    assert(words_from(s, y) =~= seq![c]);
    assert(words_from(s, x) =~= seq![b, c]);
    assert(words_from(s, 0) =~= seq![a, b, c]);
}

/// A stretch of characters.
#[derive(Clone, Copy, Debug, PartialEq, Eq, Structural)]
pub struct Span {
    pub lo: usize,
    pub hi: usize,
}

/// The characters of a span.
pub open spec fn span_of(v: Seq<char>, s: Span) -> Seq<char> {
    v.subrange(s.lo as int, s.hi as int)
}

/// `spans` are within `v`, and hold `parts`.
pub open spec fn spans_are(v: Seq<char>, spans: Seq<Span>, parts: Seq<Seq<char>>) -> bool {
    &&& spans.len() == parts.len()
    &&& forall|i: int|
        0 <= i < spans.len() ==> (#[trigger] spans[i]).lo <= spans[i].hi <= v.len() && span_of(
            v,
            spans[i],
        ) == parts[i]
}

/// The lines of `v`.
pub fn split_lines(v: &Vec<char>) -> (r: Vec<Span>)
    ensures
        spans_are(v@, r@, lines(v@)),
{
    let n: usize = v.len();
    let mut out: Vec<Span> = Vec::new();
    let mut i: usize = 0;
    let ghost mut done: Seq<Seq<char>> = Seq::empty();
    assert(done + lines_from(v@, 0) =~= lines(v@));
    while i < n
        invariant
            i <= n,
            n == v@.len(),
            spans_are(v@, out@, done),
            done + lines_from(v@, i as int) == lines(v@),
        decreases n - i,
    {
        let mut e: usize = i;
        while e < n && v[e] != '\n'
            invariant
                i <= e <= n,
                n == v@.len(),
                line_end(v@, i as int) == line_end(v@, e as int),
            decreases n - e,
        {
            e = e + 1;
        }
        proof {
            let part = v@.subrange(i as int, e as int);
            assert(line_end(v@, i as int) == e);
            assert(lines_from(v@, i as int) == seq![part] + lines_from(v@, e + 1));
            assert(done.push(part) + lines_from(v@, e + 1) =~= done + lines_from(v@, i as int));
            done = done.push(part);
        }
        out.push(Span { lo: i, hi: e });
        if e == n {
            proof {
                assert(lines_from(v@, e + 1) =~= Seq::<Seq<char>>::empty());
                assert(done + Seq::<Seq<char>>::empty() =~= done);
            }
            return out;
        }
        i = e + 1;
    }
    assert(lines_from(v@, n as int) =~= Seq::<Seq<char>>::empty());
    assert(done + Seq::<Seq<char>>::empty() =~= done);
    out
}

/// The words of the span `lo..hi` of `v`.
pub fn split_words(v: &Vec<char>, lo: usize, hi: usize) -> (r: Vec<Span>)
    requires
        lo <= hi <= v@.len(),
    ensures
        spans_are(v@, r@, words(v@.subrange(lo as int, hi as int))),
{
    let ghost s = v@.subrange(lo as int, hi as int);
    let mut out: Vec<Span> = Vec::new();
    let mut i: usize = lo;
    let ghost mut done: Seq<Seq<char>> = Seq::empty();
    assert(done + words_from(s, 0) =~= words(s));
    loop
        invariant
            lo <= i <= hi <= v@.len(),
            s == v@.subrange(lo as int, hi as int),
            spans_are(v@, out@, done),
            done + words_from(s, i - lo) == words(s),
        decreases hi - i,
    {
        let mut a: usize = i;
        while a < hi && white(v[a])
            invariant
                lo <= i <= a <= hi <= v@.len(),
                s == v@.subrange(lo as int, hi as int),
                skip_white(s, i - lo) == skip_white(s, a - lo),
            decreases hi - a,
        {
            a = a + 1;
        }
        if a == hi {
            proof {
                assert(words_from(s, i - lo) =~= Seq::<Seq<char>>::empty());
                assert(done + Seq::<Seq<char>>::empty() =~= done);
            }
            return out;
        }
        let mut b: usize = a;
        while b < hi && !white(v[b])
            invariant
                lo <= a <= b <= hi <= v@.len(),
                s == v@.subrange(lo as int, hi as int),
                word_end(s, a - lo) == word_end(s, b - lo),
            decreases hi - b,
        {
            b = b + 1;
        }
        proof {
            lemma_skip_white(s, i - lo);
            lemma_word_end(s, a - lo);
            let part = s.subrange(a - lo, b - lo);
            assert(part =~= v@.subrange(a as int, b as int));
            assert(words_from(s, i - lo) == seq![part] + words_from(s, b - lo));
            assert(done.push(part) + words_from(s, b - lo) =~= done + words_from(s, i - lo));
            done = done.push(part);
        }
        out.push(Span { lo: a, hi: b });
        i = b;
    }
}

/// End of `s` without the white space behind its last word.
pub open spec fn trim_end(s: Seq<char>) -> Seq<char>
    decreases s.len(),
{
    if s.len() > 0 && is_white(s.last()) {
        trim_end(s.drop_last())
    } else {
        s
    }
}

/// `s` without white space at either end.
pub open spec fn trimmed(s: Seq<char>) -> Seq<char> {
    trim_end(s.skip(skip_white(s, 0)))
}

/// The span of `v[lo..hi]` without white space at either end.
pub fn trim_span(v: &Vec<char>, lo: usize, hi: usize) -> (r: Span)
    requires
        lo <= hi <= v@.len(),
    ensures
        lo <= r.lo <= r.hi <= hi,
        span_of(v@, r) == trimmed(v@.subrange(lo as int, hi as int)),
{
    let ghost s = v@.subrange(lo as int, hi as int);
    let mut a: usize = lo;
    while a < hi && white(v[a])
        invariant
            lo <= a <= hi <= v@.len(),
            s == v@.subrange(lo as int, hi as int),
            skip_white(s, 0) == skip_white(s, a - lo),
        decreases hi - a,
    {
        a = a + 1;
    }
    assert(s.skip(a - lo) =~= v@.subrange(a as int, hi as int));
    let mut b: usize = hi;
    while b > a && white(v[b - 1])
        invariant
            lo <= a <= b <= hi <= v@.len(),
            trim_end(v@.subrange(a as int, b as int)) == trim_end(v@.subrange(a as int, hi as int)),
        decreases b,
    {
        assert(v@.subrange(a as int, b as int).drop_last() =~= v@.subrange(a as int, b - 1));
        b = b - 1;
    }
    Span { lo: a, hi: b }
}

/// The whole number written in `s`: digits after an optional sign.
pub open spec fn integer_in(s: Seq<char>) -> Option<int> {
    if s.len() > 0 && s[0] == '-' {
        if text::all_digits(s.drop_first()) {
            Some(-(text::digits_value(s.drop_first()) as int))
        } else {
            None
        }
    } else {
        match text::number_in(s) {
            Some(n) => Some(n as int),
            None => None,
        }
    }
}

/// `integer_in`, limited to a range.
pub open spec fn integer_within(s: Seq<char>, lo: int, hi: int) -> Option<int> {
    match integer_in(s) {
        Some(n) => if lo <= n <= hi { Some(n) } else { None },
        None => None,
    }
}

/// Read the span as a signed 64-bit number.
pub fn parse_i64_span(v: &Vec<char>, lo: usize, hi: usize) -> (r: Option<i64>)
    requires
        lo <= hi <= v@.len(),
    ensures
        match r {
            Some(n) => integer_within(
                v@.subrange(lo as int, hi as int),
                i64::MIN as int,
                i64::MAX as int,
            ) == Some(n as int),
            None => integer_within(
                v@.subrange(lo as int, hi as int),
                i64::MIN as int,
                i64::MAX as int,
            ) is None,
        },
{
    let ghost s = v@.subrange(lo as int, hi as int);
    if lo < hi && v[lo] == '-' {
        assert(s.drop_first() =~= v@.subrange(lo + 1, hi as int));
        if lo + 1 < hi && v[lo + 1] == '+' {
            assert(s.drop_first()[0] == '+');
            assert(!text::is_digit('+'));
            assert(!text::all_digits(s.drop_first()));
            return None;
        }
        proof {
            assert(text::unsigned_body(s.drop_first()) == s.drop_first());
        }
        match text::parse_span(v, lo + 1, hi) {
            Some(n) => {
                if n <= 0x7fff_ffff_ffff_ffff {
                    Some(-(n as i64))
                } else if n == 0x8000_0000_0000_0000 {
                    Some(i64::MIN)
                } else {
                    None
                }
            },
            None => None,
        }
    } else {
        match text::parse_span(v, lo, hi) {
            Some(n) => if n <= 0x7fff_ffff_ffff_ffff {
                Some(n as i64)
            } else {
                None
            },
            None => None,
        }
    }
}

/// Read `s`, without white space at its ends, as a signed 32-bit number.
pub fn parse_i32_trimmed(s: &str) -> (r: Option<i32>)
    ensures
        match r {
            Some(n) => integer_within(trimmed(s@), i32::MIN as int, i32::MAX as int) == Some(
                n as int,
            ),
            None => integer_within(trimmed(s@), i32::MIN as int, i32::MAX as int) is None,
        },
{
    let v = text::chars_of(s);
    assert(v@.subrange(0, v@.len() as int) =~= s@);
    let t: Span = trim_span(&v, 0, v.len());
    match parse_i64_span(&v, t.lo, t.hi) {
        Some(n) => if -0x8000_0000 <= n && n <= 0x7fff_ffff {
            Some(n as i32)
        } else {
            None
        },
        None => None,
    }
}

/// Read `s` as a signed 64-bit number.
pub fn parse_i64(s: &str) -> (r: Option<i64>)
    ensures
        match r {
            Some(n) => integer_within(s@, i64::MIN as int, i64::MAX as int) == Some(n as int),
            None => integer_within(s@, i64::MIN as int, i64::MAX as int) is None,
        },
{
    let v = text::chars_of(s);
    assert(v@.subrange(0, v@.len() as int) =~= s@);
    parse_i64_span(&v, 0, v.len())
}

/// Read `s` as an unsigned 32-bit number.
pub fn parse_u32(s: &str) -> (r: Option<u32>)
    ensures
        match r {
            Some(n) => text::number_upto(s@, u32::MAX as nat) == Some(n as nat),
            None => text::number_upto(s@, u32::MAX as nat) is None,
        },
{
    match text::parse_u64(s) {
        Some(n) => if n <= 0xffff_ffff {
            Some(n as u32)
        } else {
            None
        },
        None => None,
    }
}

} // verus!
