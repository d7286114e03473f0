//! Character-level text handling: decimal numbers and separated fields.

use vstd::prelude::*;

verus! {

/// Whether `c` is one of the ASCII decimal digits.
pub open spec fn is_digit(c: char) -> bool {
    '0' <= c && c <= '9'
}

/// The value of a decimal digit character.
pub open spec fn digit_value(c: char) -> nat {
    (c as int - '0' as int) as nat
}

/// Every character of `s` is a decimal digit.
pub open spec fn all_digits(s: Seq<char>) -> bool {
    forall|i: int| 0 <= i < s.len() ==> is_digit(#[trigger] s[i])
}

/// The number that a string of decimal digits denotes (most significant first).
pub open spec fn digits_value(s: Seq<char>) -> nat
    decreases s.len(),
{
    if s.len() == 0 {
        0
    } else {
        digits_value(s.drop_last()) * 10 + digit_value(s.last())
    }
}

/// What `str::parse` accepts for an unsigned integer type whose largest value
/// is `max`: an optional `+`, then one or more decimal digits (leading zeros
/// allowed) whose value is at most `max`.
pub open spec fn spec_parse_uint(s: Seq<char>, max: nat) -> Option<nat> {
    spec_parse_uint_digits(if s.len() > 0 && s[0] == '+' { s.drop_first() } else { s }, max)
}

/// One or more decimal digits whose value is at most `max`.
pub open spec fn spec_parse_uint_digits(d: Seq<char>, max: nat) -> Option<nat> {
    if d.len() > 0 && all_digits(d) && digits_value(d) <= max {
        Some(digits_value(d))
    } else {
        None
    }
}

/// What `str::parse::<u16>` accepts.
pub open spec fn spec_parse_u16(s: Seq<char>) -> Option<u16> {
    match spec_parse_uint(s, 65535) {
        Some(n) => Some(n as u16),
        None => None,
    }
}

/// What `str::parse::<usize>` accepts.
pub open spec fn spec_parse_usize(s: Seq<char>) -> Option<usize> {
    match spec_parse_uint(s, usize::MAX as nat) {
        Some(n) => Some(n as usize),
        None => None,
    }
}

/// A prefix of a digit string never denotes more than the whole string.
pub proof fn lemma_digits_value_prefix(s: Seq<char>, k: int)
    requires
        0 <= k <= s.len(),
        all_digits(s),
    ensures
        digits_value(s.take(k)) <= digits_value(s),
    decreases s.len(),
{
    if k < s.len() {
        assert(s.take(k) =~= s.drop_last().take(k));
        lemma_digits_value_prefix(s.drop_last(), k);
    } else {
        assert(s.take(k) =~= s);
    }
}

/// The position of the first `sep` in `s`, if there is one.
pub open spec fn index_of(s: Seq<char>, sep: char) -> Option<int>
    decreases s.len(),
{
    if s.len() == 0 {
        None
    } else if s[0] == sep {
        Some(0)
    } else {
        match index_of(s.drop_first(), sep) {
            Some(i) => Some(i + 1),
            None => None,
        }
    }
}

/// The `k`-th piece of `s` cut at every `sep`, as `str::split` yields them;
/// `None` where `s` has fewer pieces.
pub open spec fn field(s: Seq<char>, sep: char, k: nat) -> Option<Seq<char>>
    decreases k,
{
    match index_of(s, sep) {
        None => if k == 0 {
            Some(s)
        } else {
            None
        },
        Some(i) => if k == 0 {
            Some(s.take(i))
        } else {
            field(s.skip(i + 1), sep, (k - 1) as nat)
        },
    }
}

/// `index_of` finds the first occurrence and nothing before it.
pub proof fn lemma_index_of(s: Seq<char>, sep: char, i: int)
    requires
        0 <= i <= s.len(),
        forall|j: int| 0 <= j < i ==> s[j] != sep,
    ensures
        i < s.len() && s[i] == sep ==> index_of(s, sep) == Some(i),
        i == s.len() ==> index_of(s, sep) is None,
    decreases s.len(),
{
    if s.len() > 0 && i > 0 {
        assert(s[0] != sep);
        assert forall|j: int| 0 <= j < i - 1 implies s.drop_first()[j] != sep by {
            assert(s.drop_first()[j] == s[j + 1]);
        }
        lemma_index_of(s.drop_first(), sep, i - 1);
    }
}

/// The first position of `sep` in `v[lo..hi]`, or `hi` where there is none.
pub fn find_sep(v: &Vec<char>, lo: usize, hi: usize, sep: char) -> (r: usize)
    requires
        lo <= hi <= v@.len(),
    ensures
        lo <= r <= hi,
        r < hi ==> index_of(v@.subrange(lo as int, hi as int), sep) == Some(r - lo),
        r == hi ==> index_of(v@.subrange(lo as int, hi as int), sep) is None,
{
    let ghost s = v@.subrange(lo as int, hi as int);
    let mut i = lo;
    while i < hi
        invariant
            lo <= i <= hi <= v@.len(),
            s == v@.subrange(lo as int, hi as int),
            forall|j: int| 0 <= j < i - lo ==> s[j] != sep,
        decreases hi - i,
    {
        if v[i] == sep {
            proof {
                lemma_index_of(s, sep, i - lo);
            }
            return i;
        }
        i = i + 1;
    }
    proof {
        lemma_index_of(s, sep, i - lo);
    }
    i
}

/// The bounds of the `k`-th `sep`-separated piece of `v[lo..hi]`, if it exists.
pub fn field_bounds(v: &Vec<char>, lo: usize, hi: usize, sep: char, k: usize) -> (r: Option<
    (usize, usize),
>)
    requires
        lo <= hi <= v@.len(),
    ensures
        match r {
            Some((a, b)) => lo <= a <= b <= hi && field(v@.subrange(lo as int, hi as int), sep, k as nat)
                == Some(v@.subrange(a as int, b as int)),
            None => field(v@.subrange(lo as int, hi as int), sep, k as nat) is None,
        },
{
    let mut start = lo;
    let mut left = k;
    loop
        invariant
            lo <= start <= hi <= v@.len(),
            left <= k,
            field(v@.subrange(lo as int, hi as int), sep, k as nat) == field(
                v@.subrange(start as int, hi as int),
                sep,
                left as nat,
            ),
        decreases left,
    {
        let ghost s = v@.subrange(start as int, hi as int);
        let p = find_sep(v, start, hi, sep);
        if p == hi {
            if left == 0 {
                return Some((start, hi));
            } else {
                return None;
            }
        }
        if left == 0 {
            assert(s.take(p - start) =~= v@.subrange(start as int, p as int));
            return Some((start, p));
        }
        assert(s.skip(p - start + 1) =~= v@.subrange(p + 1, hi as int));
        start = p + 1;
        left = left - 1;
    }
}

/// A string of `n` digits denotes less than `10^n`; here for up to three.
pub proof fn lemma_digits_value_bound(s: Seq<char>)
    requires
        all_digits(s),
        s.len() <= 3,
    ensures
        s.len() == 0 ==> digits_value(s) == 0,
        s.len() <= 1 ==> digits_value(s) < 10,
        s.len() <= 2 ==> digits_value(s) < 100,
        digits_value(s) < 1000,
    decreases s.len(),
{
    if s.len() > 0 {
        assert(all_digits(s.drop_last()));
        lemma_digits_value_bound(s.drop_last());
        assert(is_digit(s[s.len() - 1]));
    }
}

/// A piece without `sep` followed by `sep` is the first field of what it
/// begins, and the rest is what follows.
pub proof fn lemma_field_cut(x: Seq<char>, sep: char, y: Seq<char>, k: nat)
    requires
        forall|i: int| 0 <= i < x.len() ==> x[i] != sep,
    ensures
        field(x + seq![sep] + y, sep, 0) == Some(x),
        k > 0 ==> field(x + seq![sep] + y, sep, k) == field(y, sep, (k - 1) as nat),
{
    let s = x + seq![sep] + y;
    assert forall|j: int| 0 <= j < x.len() implies s[j] != sep by {
        assert(s[j] == x[j]);
    }
    assert(s[x.len() as int] == sep);
    lemma_index_of(s, sep, x.len() as int);
    assert(s.take(x.len() as int) =~= x);
    assert(s.skip(x.len() as int + 1) =~= y);
}

/// A piece without `sep` is a single field.
pub proof fn lemma_field_whole(x: Seq<char>, sep: char, k: nat)
    requires
        forall|i: int| 0 <= i < x.len() ==> x[i] != sep,
    ensures
        field(x, sep, k) == (if k == 0 {
            Some(x)
        } else {
            None::<Seq<char>>
        }),
{
    lemma_index_of(x, sep, x.len() as int);
}

/// The character of the decimal digit `d` (`d < 10`).
pub open spec fn digit_char(d: nat) -> char {
    if d == 0 {
        '0'
    } else if d == 1 {
        '1'
    } else if d == 2 {
        '2'
    } else if d == 3 {
        '3'
    } else if d == 4 {
        '4'
    } else if d == 5 {
        '5'
    } else if d == 6 {
        '6'
    } else if d == 7 {
        '7'
    } else if d == 8 {
        '8'
    } else {
        '9'
    }
}

/// The decimal form of `n`: its digits, most significant first, with no
/// leading zero.
pub open spec fn decimal(n: nat) -> Seq<char>
    decreases n,
{
    if n < 10 {
        seq![digit_char(n)]
    } else {
        decimal(n / 10).push(digit_char(n % 10))
    }
}

/// The decimal form of `n` is a digit string that denotes `n`, with no
/// leading zero, and three digits at most below 1000.
pub proof fn lemma_decimal(n: nat)
    ensures
        decimal(n).len() > 0,
        all_digits(decimal(n)),
        digits_value(decimal(n)) == n,
        decimal(n)[0] == '0' ==> n == 0,
        n < 10 ==> decimal(n).len() == 1,
        n < 100 ==> decimal(n).len() <= 2,
        n < 1000 ==> decimal(n).len() <= 3,
    decreases n,
{
    let s = decimal(n);
    assert(digit_value(digit_char(n % 10)) == n % 10);
    assert(is_digit(digit_char(n % 10)));
    if n < 10 {
        assert(s.drop_last() =~= Seq::<char>::empty());
        assert(s.last() == digit_char(n));
        assert(digits_value(s) == digits_value(s.drop_last()) * 10 + digit_value(s.last()));
    } else {
        lemma_decimal(n / 10);
        assert(s.drop_last() =~= decimal(n / 10));
        assert(n == (n / 10) * 10 + n % 10);
        assert(s.last() == digit_char(n % 10));
        assert(digits_value(s) == digits_value(decimal(n / 10)) * 10 + digit_value(s.last()));
        assert(s[0] == decimal(n / 10)[0]);
        assert forall|i: int| 0 <= i < s.len() implies is_digit(#[trigger] s[i]) by {
            if i < s.len() - 1 {
                assert(s[i] == decimal(n / 10)[i]);
            }
        }
    }
}

/// Law: the decimal form of a port number parses back to that number.
pub proof fn law_u16_text_roundtrip(n: u16)
    ensures
        spec_parse_u16(decimal(n as nat)) == Some(n),
{
    lemma_decimal(n as nat);
    assert(is_digit(decimal(n as nat)[0]));
}

/// Appends the digit `d` to `s`.
fn push_digit(s: &mut String, d: u32)
    requires
        d < 10,
    ensures
        final(s)@ == old(s)@.push(digit_char(d as nat)),
{
    proof {
        reveal_strlit("0");
        reveal_strlit("1");
        reveal_strlit("2");
        reveal_strlit("3");
        reveal_strlit("4");
        reveal_strlit("5");
        reveal_strlit("6");
        reveal_strlit("7");
        reveal_strlit("8");
        reveal_strlit("9");
    }
    if d == 0 {
        s.append("0");
    } else if d == 1 {
        s.append("1");
    } else if d == 2 {
        s.append("2");
    } else if d == 3 {
        s.append("3");
    } else if d == 4 {
        s.append("4");
    } else if d == 5 {
        s.append("5");
    } else if d == 6 {
        s.append("6");
    } else if d == 7 {
        s.append("7");
    } else if d == 8 {
        s.append("8");
    } else {
        s.append("9");
    }
}

/// Appends the decimal form of `n` to `s`.
pub fn push_decimal(s: &mut String, n: u32)
    ensures
        final(s)@ == old(s)@ + decimal(n as nat),
    decreases n,
{
    if n >= 10 {
        push_decimal(s, n / 10);
    }
    push_digit(s, n % 10);
    proof {
        if n < 10 {
            assert(decimal(n as nat) =~= seq![digit_char(n as nat)]);
        }
    }
    assert(s@ =~= old(s)@ + decimal(n as nat));
}

/// Collects the characters of `s`.
pub fn chars_of(s: &str) -> (r: Vec<char>)
    ensures
        r@ == s@,
{
    let n = s.unicode_len();
    let mut v: Vec<char> = Vec::new();
    for i in 0..n
        invariant
            n == s@.len(),
            v@ == s@.take(i as int),
    {
        v.push(s.get_char(i));
        assert(v@ =~= s@.take(i + 1));
    }
    assert(v@ =~= s@);
    v
}

/// The value of the digit character `c`.
pub fn digit_of_char(c: char) -> (d: u32)
    requires
        is_digit(c),
    ensures
        d == digit_value(c),
        d < 10,
{
    (c as u32) - ('0' as u32)
}

/// Parses `v[lo..hi]` as an unsigned integer of at most `max`, as
/// `str::parse` does for an unsigned type whose largest value is `max`.
pub fn parse_uint_in(v: &Vec<char>, lo: usize, hi: usize, max: usize) -> (r: Option<usize>)
    requires
        lo <= hi <= v@.len(),
    ensures
        match spec_parse_uint(v@.subrange(lo as int, hi as int), max as nat) {
            Some(n) => r == Some(n as usize),
            None => r is None,
        },
{
    let ghost s = v@.subrange(lo as int, hi as int);
    let mut start = lo;
    if lo < hi && v[lo] == '+' {
        start = lo + 1;
    }
    let ghost d = v@.subrange(start as int, hi as int);
    assert(d =~= (if s.len() > 0 && s[0] == '+' { s.drop_first() } else { s }));
    if start == hi {
        return None;
    }
    let mut acc: usize = 0;
    let mut i = start;
    while i < hi
        invariant
            lo <= start <= i <= hi <= v@.len(),
            d == v@.subrange(start as int, hi as int),
            spec_parse_uint(v@.subrange(lo as int, hi as int), max as nat) == spec_parse_uint_digits(
                d,
                max as nat,
            ),
            all_digits(v@.subrange(start as int, i as int)),
            acc == digits_value(v@.subrange(start as int, i as int)),
            acc <= max,
        decreases hi - i,
    {
        let c = v[i];
        if !('0' <= c && c <= '9') {
            assert(d[i - start] == c);
            return None;
        }
        let ghost prev = v@.subrange(start as int, i as int);
        let ghost next = v@.subrange(start as int, i + 1);
        assert(next.drop_last() =~= prev);
        let dg = digit_of_char(c) as usize;
        if dg > max || acc > (max - dg) / 10 {
            assert(acc * 10 + dg > max) by (nonlinear_arith)
                requires
                    dg > max || acc > (max - dg) / 10,
                    acc >= 0,
            ;
            proof {
                if all_digits(d) {
                    assert(d.take(i + 1 - start) =~= next);
                    lemma_digits_value_prefix(d, i + 1 - start);
                }
            }
            return None;
        }
        assert(acc * 10 + dg <= max) by (nonlinear_arith)
            requires
                dg <= max,
                acc <= (max - dg) / 10,
        ;
        acc = acc * 10 + dg;
        i = i + 1;
    }
    assert(v@.subrange(start as int, i as int) =~= d);
    Some(acc)
}

/// Parses `v[lo..hi]` as `str::parse::<u16>` does.
pub fn parse_u16_in(v: &Vec<char>, lo: usize, hi: usize) -> (r: Option<u16>)
    requires
        lo <= hi <= v@.len(),
    ensures
        r == spec_parse_u16(v@.subrange(lo as int, hi as int)),
{
    match parse_uint_in(v, lo, hi, 65535) {
        Some(n) => Some(n as u16),
        None => None,
    }
}

/// Parses `v[lo..hi]` as `str::parse::<usize>` does.
pub fn parse_usize_in(v: &Vec<char>, lo: usize, hi: usize) -> (r: Option<usize>)
    requires
        lo <= hi <= v@.len(),
    ensures
        r == spec_parse_usize(v@.subrange(lo as int, hi as int)),
{
    parse_uint_in(v, lo, hi, usize::MAX)
}

} // verus!
