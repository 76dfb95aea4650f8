//! Plain-text helpers: decimal numbers and their parsing.

use vstd::prelude::*;

verus! {

/// The character of one decimal digit.
pub open spec fn digit_char(d: nat) -> char {
    (48 + d) as char
}

/// Decimal digits of `n`, most significant first, no leading zero.
pub open spec fn digits(n: nat) -> Seq<char>
    decreases n,
{
    if n < 10 {
        seq![digit_char(n)]
    } else {
        digits(n / 10).push(digit_char(n % 10))
    }
}

/// True of the ten ASCII digits.
pub open spec fn is_digit(c: char) -> bool {
    48 <= c as u32 <= 57
}

/// Value of a run of digits read in base ten.
pub open spec fn digits_value(s: Seq<char>) -> nat
    decreases s.len(),
{
    if s.len() == 0 {
        0
    } else {
        digits_value(s.drop_last()) * 10 + (s.last() as u32 - 48) as nat
    }
}

/// A run of one or more digits.
pub open spec fn all_digits(s: Seq<char>) -> bool {
    s.len() > 0 && forall|i: int| 0 <= i < s.len() ==> is_digit(#[trigger] s[i])
}

/// What follows an optional leading plus sign.
pub open spec fn unsigned_body(s: Seq<char>) -> Seq<char> {
    if s.len() > 0 && s[0] == '+' {
        s.drop_first()
    } else {
        s
    }
}

/// The natural number written in `s`: digits after an optional plus sign.
pub open spec fn number_in(s: Seq<char>) -> Option<nat> {
    if all_digits(unsigned_body(s)) {
        Some(digits_value(unsigned_body(s)))
    } else {
        None
    }
}

/// `number_in`, limited to what `max` can hold.
pub open spec fn number_upto(s: Seq<char>, max: nat) -> Option<nat> {
    match number_in(s) {
        Some(n) => if n <= max { Some(n) } else { None },
        None => None,
    }
}

pub proof fn lemma_digits_are_digits(n: nat)
    ensures
        all_digits(digits(n)),
    decreases n,
{
    if n >= 10 {
        lemma_digits_are_digits(n / 10);
        assert forall|i: int| 0 <= i < digits(n).len() implies is_digit(#[trigger] digits(n)[i]) by {
            if i < digits(n / 10).len() {
                assert(digits(n)[i] == digits(n / 10)[i]);
            }
        }
    }
}

proof fn lemma_digits_value(n: nat)
    ensures
        digits_value(digits(n)) == n,
    decreases n,
{
    if n < 10 {
        reveal_with_fuel(digits_value, 2);
        assert(digits(n).drop_last() =~= Seq::<char>::empty());
    } else {
        lemma_digits_value(n / 10);
        assert(digits(n).drop_last() =~= digits(n / 10));
    }
}

/// Writing a number in decimal and reading it back gives the same number.
pub proof fn decimal_round_trip(n: nat)
    ensures
        number_in(digits(n)) == Some(n),
{
    lemma_digits_are_digits(n);
    lemma_digits_value(n);
    assert(is_digit(digits(n)[0]));
    assert(digits(n)[0] != '+');
}

/// The characters of `s`.
pub fn chars_of(s: &str) -> (v: Vec<char>)
    ensures
        v@ == s@,
{
    let mut v: Vec<char> = Vec::new();
    for c in it: s.chars()
        invariant
            v@ == it.seq().take(it.index() as int),
            it.seq() == s@,
    {
        v.push(c);
    }
    assert(s@.take(s@.len() as int) =~= s@);
    v
}

/// True when the two texts are equal.
pub fn same(a: &str, b: &str) -> (r: bool)
    ensures
        r == (a@ == b@),
{
    a.to_owned() == b.to_owned()
}

/// `s` ends with `tail`.
pub open spec fn ends_with(s: Seq<char>, tail: Seq<char>) -> bool {
    s.len() >= tail.len() && s.skip(s.len() - tail.len()) == tail
}

/// `s` starts with `head`.
pub open spec fn begins_with(s: Seq<char>, head: Seq<char>) -> bool {
    s.len() >= head.len() && s.take(head.len() as int) == head
}

/// True when the characters of `v` from `at` on start with `w`.
pub fn matches_at(v: &Vec<char>, at: usize, w: &Vec<char>) -> (r: bool)
    requires
        at <= v@.len(),
    ensures
        r == begins_with(v@.skip(at as int), w@),
{
    let n: usize = v.len();
    if n - at < w.len() {
        return false;
    }
    let ghost head = v@.skip(at as int).take(w@.len() as int);
    let mut i: usize = 0;
    while i < w.len()
        invariant
            i <= w@.len(),
            at + w@.len() <= n,
            n == v@.len(),
            head == v@.skip(at as int).take(w@.len() as int),
            forall|k: int| 0 <= k < i ==> head[k] == w@[k],
        decreases w@.len() - i,
    {
        if v[at + i] != w[i] {
            assert(head[i as int] != w@[i as int]);
            return false;
        }
        i = i + 1;
    }
    assert(head =~= w@);
    true
}

/// True when `s` ends with `tail`.
pub fn has_suffix(s: &str, tail: &str) -> (r: bool)
    ensures
        r == ends_with(s@, tail@),
{
    let v = chars_of(s);
    let w = chars_of(tail);
    if v.len() < w.len() {
        return false;
    }
    let at: usize = v.len() - w.len();
    let r: bool = matches_at(&v, at, &w);
    proof {
        assert(v@.skip(at as int).take(w@.len() as int) =~= v@.skip(at as int));
    }
    r
}

/// True when `s` starts with `head`.
pub fn has_prefix(s: &str, head: &str) -> (r: bool)
    ensures
        r == begins_with(s@, head@),
{
    let v = chars_of(s);
    let w = chars_of(head);
    assert(v@.skip(0) =~= v@);
    matches_at(&v, 0, &w)
}

fn push_digit(s: &mut String, d: u64)
    requires
        d < 10,
    ensures
        final(s)@ == old(s)@.push(digit_char(d as nat)),
{
    let ghost before = s@;
    if d == 0 {
        s.append("0");
    } else if d == 1 {
        s.append("1");
    } else if d == 2 {
        s.append("2");
    } else if d == 3 {
        s.append("3");
    } else if d == 4 {
        s.append("4");
    } else if d == 5 {
        s.append("5");
    } else if d == 6 {
        s.append("6");
    } else if d == 7 {
        s.append("7");
    } else if d == 8 {
        s.append("8");
    } else {
        s.append("9");
    }
    proof {
        reveal_strlit("0");
        reveal_strlit("1");
        reveal_strlit("2");
        reveal_strlit("3");
        reveal_strlit("4");
        reveal_strlit("5");
        reveal_strlit("6");
        reveal_strlit("7");
        reveal_strlit("8");
        reveal_strlit("9");
        assert(s@ =~= before.push(digit_char(d as nat)));
    }
}

/// Append the decimal digits of `n`.
pub fn push_decimal(s: &mut String, n: u64)
    ensures
        final(s)@ == old(s)@ + digits(n as nat),
    decreases n,
{
    let ghost before = s@;
    if n >= 10 {
        push_decimal(s, n / 10);
    }
    push_digit(s, n % 10);
    proof {
        assert(s@ =~= before + digits(n as nat));
    }
}

/// `n` in decimal.
pub fn decimal(n: u64) -> (s: String)
    ensures
        s@ == digits(n as nat),
{
    let mut s = String::new();
    push_decimal(&mut s, n);
    proof {
        assert(s@ =~= digits(n as nat));
    }
    s
}

proof fn lemma_value_grows(s: Seq<char>, i: int)
    requires
        all_digits(s),
        0 <= i <= s.len(),
    ensures
        digits_value(s.take(i)) <= digits_value(s),
    decreases s.len() - i,
{
    if i < s.len() {
        assert(is_digit(s[i]));
        if i + 1 == s.len() {
            assert(s.take(i + 1) =~= s);
        } else {
            lemma_value_grows(s, i + 1);
        }
        assert(s.take(i + 1).drop_last() =~= s.take(i));
        assert(s.take(i + 1).last() == s[i]);
    } else {
        assert(s.take(i) =~= s);
    }
}

/// Read the characters `lo..hi` of `v` as an unsigned number.
pub fn parse_span(v: &Vec<char>, lo: usize, hi: usize) -> (r: Option<u64>)
    requires
        lo <= hi <= v@.len(),
    ensures
        r matches Some(n) ==> number_upto(v@.subrange(lo as int, hi as int), u64::MAX as nat)
            == Some(n as nat),
        r is None ==> number_upto(v@.subrange(lo as int, hi as int), u64::MAX as nat) is None,
{
    let ghost s = v@.subrange(lo as int, hi as int);
    let start: usize = if lo < hi && v[lo] == '+' { lo + 1 } else { lo };
    let ghost body = v@.subrange(start as int, hi as int);
    proof {
        assert(unsigned_body(s) =~= body);
    }
    if start == hi {
        return None;
    }
    let mut acc: u64 = 0;
    let mut i: usize = start;
    while i < hi
        invariant
            lo <= start <= i <= hi <= v@.len(),
            body == v@.subrange(start as int, hi as int),
            s == v@.subrange(lo as int, hi as int),
            unsigned_body(s) == body,
            acc as nat == digits_value(body.take(i - start)),
            forall|k: int| 0 <= k < i - start ==> is_digit(#[trigger] body[k]),
        decreases hi - i,
    {
        let c: u32 = v[i] as u32;
        assert(body[i - start] == v[i as int]);
        if c < 48 || c > 57 {
            assert(!is_digit(body[i - start]));
            return None;
        }
        let d: u64 = (c - 48) as u64;
        proof {
            assert(body.take(i - start + 1).drop_last() =~= body.take(i - start));
            assert(body.take(i - start + 1).last() == body[i - start]);
            assert(digits_value(body.take(i - start + 1)) == acc as nat * 10 + d as nat);
        }
        if acc > (u64::MAX - d) / 10 {
            proof {
                if all_digits(body) {
                    lemma_value_grows(body, i - start + 1);
                }
            }
            return None;
        }
        acc = acc * 10 + d;
        i = i + 1;
    }
    proof {
        assert(body.take(hi - start) =~= body);
    }
    Some(acc)
}

/// Read `s` as an unsigned number: digits after an optional plus sign,
/// nothing else, no larger than the type holds.
pub fn parse_u64(s: &str) -> (r: Option<u64>)
    ensures
        r matches Some(n) ==> number_upto(s@, u64::MAX as nat) == Some(n as nat),
        r is None ==> number_upto(s@, u64::MAX as nat) is None,
{
    let v = chars_of(s);
    proof {
        assert(v@.subrange(0, v@.len() as int) =~= s@);
    }
    parse_span(&v, 0, v.len())
}

/// Read `s` as an unsigned number of the machine's word size.
pub fn parse_usize(s: &str) -> (r: Option<usize>)
    ensures
        r matches Some(n) ==> number_upto(s@, usize::MAX as nat) == Some(n as nat),
        r is None ==> number_upto(s@, usize::MAX as nat) is None,
{
    match parse_u64(s) {
        Some(n) => if n <= usize::MAX as u64 {
            Some(n as usize)
        } else {
            None
        },
        None => None,
    }
}

} // verus!
