//! Decimal numerals: the digits of an unsigned integer and their value.

use vstd::prelude::*;
use crate::text::{is_ws, trim_start, push_char};

verus! {

pub open spec fn is_digit(c: char) -> bool {
    '0' <= c && c <= '9'
}

pub open spec fn all_digits(s: Seq<char>) -> bool {
    forall|i: int| 0 <= i < s.len() ==> is_digit(#[trigger] s[i])
}

/// The digit character for `d < 10`.
pub open spec fn digit_char(d: nat) -> char {
    if d == 0 { '0' } else if d == 1 { '1' } else if d == 2 { '2' } else if d == 3 { '3' }
    else if d == 4 { '4' } else if d == 5 { '5' } else if d == 6 { '6' } else if d == 7 { '7' }
    else if d == 8 { '8' } else { '9' }
}

fn digit_of(d: usize) -> (c: char)
    requires
        d < 10,
    ensures
        c == digit_char(d as nat),
{
    if d == 0 { '0' } else if d == 1 { '1' } else if d == 2 { '2' } else if d == 3 { '3' }
    else if d == 4 { '4' } else if d == 5 { '5' } else if d == 6 { '6' } else if d == 7 { '7' }
    else if d == 8 { '8' } else { '9' }
}

/// The value of a string of decimal digits.
pub open spec fn digits_value(s: Seq<char>) -> nat
    decreases s.len(),
{
    if s.len() == 0 {
        0
    } else {
        digits_value(s.drop_last()) * 10 + ((s.last() as u32) - ('0' as u32)) as nat
    }
}

/// The decimal numeral of `n`, without leading zeros.
pub open spec fn dec(n: nat) -> Seq<char>
    decreases n,
{
    if n < 10 {
        seq![digit_char(n)]
    } else {
        dec(n / 10).push(digit_char(n % 10))
    }
}

/// The number of leading characters of `s` that are not whitespace.
pub open spec fn token_len(s: Seq<char>) -> nat
    decreases s.len(),
{
    if s.len() > 0 && !is_ws(s[0]) {
        1 + token_len(s.drop_first())
    } else {
        0
    }
}

/// The first whitespace-delimited token of `s` (empty when there is none).
pub open spec fn first_token(s: Seq<char>) -> Seq<char> {
    let t = trim_start(s);
    t.subrange(0, token_len(t) as int)
}

/// `s` read as an unsigned number that fits a `usize`: an optional `+`, then one
/// or more decimal digits.
pub open spec fn parse_usize(s: Seq<char>) -> Option<usize> {
    let d = if s.len() > 0 && s[0] == '+' {
        s.drop_first()
    } else {
        s
    };
    if d.len() > 0 && all_digits(d) && digits_value(d) <= usize::MAX {
        Some(digits_value(d) as usize)
    } else {
        None
    }
}

pub proof fn lemma_digits_value_grows(s: Seq<char>, j: int)
    requires
        0 <= j <= s.len(),
        all_digits(s),
    ensures
        digits_value(s.subrange(0, j)) <= digits_value(s),
    decreases s.len() - j,
{
    if j < s.len() {
        let t = s.subrange(0, j + 1);
        assert(t.drop_last() =~= s.subrange(0, j));
        assert(is_digit(s[j]));
        assert(digits_value(s.subrange(0, j)) <= digits_value(t));
        lemma_digits_value_grows(s, j + 1);
    } else {
        assert(s.subrange(0, j) =~= s);
    }
}

proof fn lemma_digit_char(d: nat)
    requires
        d < 10,
    ensures
        is_digit(digit_char(d)),
        (digit_char(d) as u32) - ('0' as u32) == d,
        !is_ws(digit_char(d)),
        digit_char(d) != '+',
{
}

pub proof fn lemma_dec(n: nat)
    ensures
        dec(n).len() > 0,
        all_digits(dec(n)),
        digits_value(dec(n)) == n,
        forall|i: int| 0 <= i < dec(n).len() ==> !is_ws(#[trigger] dec(n)[i]),
        dec(n)[0] != '+',
    decreases n,
{
    lemma_digit_char(n % 10);
    if n < 10 {
        let d = dec(n);
        assert(d.drop_last() =~= Seq::<char>::empty());
        assert(digits_value(d.drop_last()) == 0);
        assert(d.last() == digit_char(n));
        assert(digits_value(d) == n);
    }
    if n >= 10 {
        assert(n == (n / 10) * 10 + n % 10);
        lemma_dec(n / 10);
        let d = dec(n);
        assert(d.drop_last() =~= dec(n / 10));
        assert(digits_value(d) == digits_value(dec(n / 10)) * 10 + (n % 10));
        assert(d[0] == dec(n / 10)[0]);
    }
}

/// The value of the decimal digits `v[lo..hi]`, or `None` where it exceeds `usize::MAX`.
fn digits_to_usize(v: &Vec<char>, lo: usize, hi: usize) -> (r: Option<usize>)
    requires
        lo <= hi <= v@.len(),
        all_digits(v@.subrange(lo as int, hi as int)),
    ensures
        r == (if digits_value(v@.subrange(lo as int, hi as int)) <= usize::MAX {
            Some(digits_value(v@.subrange(lo as int, hi as int)) as usize)
        } else {
            None::<usize>
        }),
{
    let ghost s = v@.subrange(lo as int, hi as int);
    let mut acc: usize = 0;
    let mut i: usize = lo;
    while i < hi
        invariant
            lo <= i <= hi <= v@.len(),
            s == v@.subrange(lo as int, hi as int),
            all_digits(s),
            acc as nat == digits_value(v@.subrange(lo as int, i as int)),
        decreases hi - i,
    {
        let ghost k = i - lo;
        assert(is_digit(s[k]));
        assert(v@.subrange(lo as int, i + 1).drop_last() =~= v@.subrange(lo as int, i as int));
        let d: usize = ((v[i] as u32) - ('0' as u32)) as usize;
        if acc > (usize::MAX - d) / 10 {
            proof {
                assert(acc * 10 + d > usize::MAX) by (nonlinear_arith)
                    requires
                        acc > (usize::MAX - d) / 10,
                        d <= 9,
                ;
                assert(s.subrange(0, k + 1) =~= v@.subrange(lo as int, i + 1));
                lemma_digits_value_grows(s, k + 1);
            }
            return None;
        }
        proof {
            assert(acc * 10 + d <= usize::MAX) by (nonlinear_arith)
                requires
                    acc <= (usize::MAX - d) / 10,
                    d <= 9,
            ;
        }
        acc = acc * 10 + d;
        i = i + 1;
    }
    Some(acc)
}

/// Reads the first whitespace-delimited token of a line as an unsigned number.
pub fn parse_first_number(line: &Vec<char>) -> (r: Option<usize>)
    ensures
        r == parse_usize(first_token(line@)),
{
    let n = line.len();
    let mut a: usize = 0;
    assert(line@.subrange(0, n as int) =~= line@);
    while a < n && crate::text::is_whitespace(line[a])
        invariant
            a <= n == line@.len(),
            trim_start(line@) == trim_start(line@.subrange(a as int, n as int)),
        decreases n - a,
    {
        assert(line@.subrange(a as int, n as int).drop_first() =~= line@.subrange(a + 1, n as int));
        a = a + 1;
    }
    let ghost t = line@.subrange(a as int, n as int);
    assert(line@.subrange(0, n as int) =~= line@);
    assert(trim_start(t) == t);
    let mut b: usize = a;
    while b < n && !crate::text::is_whitespace(line[b])
        invariant
            a <= b <= n == line@.len(),
            t == line@.subrange(a as int, n as int),
            token_len(t) == (b - a) + token_len(line@.subrange(b as int, n as int)),
        decreases n - b,
    {
        assert(line@.subrange(b as int, n as int).drop_first() =~= line@.subrange(b + 1, n as int));
        b = b + 1;
    }
    assert(token_len(line@.subrange(b as int, n as int)) == 0);
    let ghost tok = t.subrange(0, (b - a) as int);
    assert(tok =~= line@.subrange(a as int, b as int));
    assert(tok == first_token(line@));
    let mut c: usize = a;
    if b > a && line[a] == '+' {
        c = a + 1;
        assert(tok[0] == '+');
        assert(tok.drop_first() =~= line@.subrange(c as int, b as int));
    } else {
        assert(tok =~= line@.subrange(c as int, b as int));
        assert(tok.len() == 0 || tok[0] != '+');
    }
    if c == b {
        return None;
    }
    let mut i: usize = c;
    while i < b
        invariant
            c <= i <= b <= n == line@.len(),
            tok == first_token(line@),
            line@.subrange(c as int, b as int) == (if tok.len() > 0 && tok[0] == '+' {
                tok.drop_first()
            } else {
                tok
            }),
            forall|j: int| c <= j < i ==> is_digit(#[trigger] line@[j]),
        decreases b - i,
    {
        if !('0' <= line[i] && line[i] <= '9') {
            assert(line@.subrange(c as int, b as int)[i - c] == line@[i as int]);
            assert(!is_digit(line@.subrange(c as int, b as int)[i - c]));
            assert(!all_digits(line@.subrange(c as int, b as int)));
            return None;
        }
        i = i + 1;
    }
    assert(all_digits(line@.subrange(c as int, b as int)));
    digits_to_usize(line, c, b)
}

/// Appends the decimal numeral of `n`.
pub fn push_decimal(s: &mut String, n: usize)
    ensures
        final(s)@ == old(s)@ + dec(n as nat),
    decreases n,
{
    if n >= 10 {
        push_decimal(s, n / 10);
    }
    push_char(s, digit_of(n % 10));
    proof {
        if n >= 10 {
            assert(dec(n as nat) == dec((n / 10) as nat).push(digit_char((n % 10) as nat)));
        }
    }
    assert(final(s)@ =~= old(s)@ + dec(n as nat));
}

} // verus!
