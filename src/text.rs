//! Character-level helpers: whitespace, trimming, and building strings.

use vstd::prelude::*;

verus! {

/// The Unicode `White_Space` property, the set that `char::is_whitespace` tests.
pub open spec fn is_ws(c: char) -> bool {
    let u = c as u32;
    (0x9 <= u && u <= 0xd) || u == 0x20 || u == 0x85 || u == 0xa0 || u == 0x1680 || (0x2000 <= u
        && u <= 0x200a) || u == 0x2028 || u == 0x2029 || u == 0x202f || u == 0x205f || u == 0x3000
}

/// `s` without its leading whitespace.
pub open spec fn trim_start(s: Seq<char>) -> Seq<char>
    decreases s.len(),
{
    if s.len() > 0 && is_ws(s[0]) {
        trim_start(s.drop_first())
    } else {
        s
    }
}

/// `s` without its trailing whitespace.
pub open spec fn trim_end(s: Seq<char>) -> Seq<char>
    decreases s.len(),
{
    if s.len() > 0 && is_ws(s.last()) {
        trim_end(s.drop_last())
    } else {
        s
    }
}

/// `s` without whitespace at either end.
pub open spec fn trim(s: Seq<char>) -> Seq<char> {
    trim_end(trim_start(s))
}

/// `s` begins with `p`.
pub open spec fn starts_with(s: Seq<char>, p: Seq<char>) -> bool {
    p.len() <= s.len() && s.subrange(0, p.len() as int) == p
}

/// A sequence with no whitespace at either end.
pub open spec fn is_trimmed(s: Seq<char>) -> bool {
    s.len() > 0 ==> !is_ws(s[0]) && !is_ws(s.last())
}

pub fn is_whitespace(c: char) -> (r: bool)
    ensures
        r == is_ws(c),
{
    let u = c as u32;
    (0x9 <= u && u <= 0xd) || u == 0x20 || u == 0x85 || u == 0xa0 || u == 0x1680 || (0x2000 <= u
        && u <= 0x200a) || u == 0x2028 || u == 0x2029 || u == 0x202f || u == 0x205f || u == 0x3000
}

/// The characters of `s`, in order.
pub fn chars_of(s: &str) -> (r: Vec<char>)
    ensures
        r@ == s@,
{
    let n = s.unicode_len();
    let mut r: Vec<char> = Vec::new();
    let mut i: usize = 0;
    while i < n
        invariant
            n == s@.len(),
            i <= n,
            r@ == s@.subrange(0, i as int),
        decreases n - i,
    {
        r.push(s.get_char(i));
        i = i + 1;
        assert(r@ =~= s@.subrange(0, i as int));
    }
    assert(r@ =~= s@);
    r
}

/// Relies on `String::push`: appends one character at the end.
#[verifier::external_body]
pub(crate) fn push_char(s: &mut String, c: char)
    ensures
        final(s)@ == old(s)@.push(c),
{
    s.push(c)
}

/// Appends the characters `v[lo..hi]` to `s`.
pub fn push_chars(s: &mut String, v: &Vec<char>, lo: usize, hi: usize)
    requires
        lo <= hi <= v@.len(),
    ensures
        final(s)@ == old(s)@ + v@.subrange(lo as int, hi as int),
{
    let mut i: usize = lo;
    while i < hi
        invariant
            lo <= i <= hi <= v@.len(),
            s@ == old(s)@ + v@.subrange(lo as int, i as int),
        decreases hi - i,
    {
        push_char(s, v[i]);
        i = i + 1;
        assert(s@ =~= old(s)@ + v@.subrange(lo as int, i as int));
    }
}

/// A new string holding the characters `v[lo..hi]`.
pub fn string_of(v: &Vec<char>, lo: usize, hi: usize) -> (r: String)
    requires
        lo <= hi <= v@.len(),
    ensures
        r@ == v@.subrange(lo as int, hi as int),
{
    let mut r = String::new();
    push_chars(&mut r, v, lo, hi);
    assert(r@ =~= v@.subrange(lo as int, hi as int));
    r
}

/// Appends the characters of `t` to `s`.
pub fn push_str(s: &mut String, t: &str)
    ensures
        final(s)@ == old(s)@ + t@,
{
    let v = chars_of(t);
    push_chars(s, &v, 0, v.len());
    assert(v@.subrange(0, v@.len() as int) =~= v@);
}

proof fn lemma_trim_start_skip(v: Seq<char>, lo: int, hi: int)
    requires
        0 <= lo < hi <= v.len(),
        is_ws(v[lo]),
    ensures
        trim_start(v.subrange(lo, hi)) == trim_start(v.subrange(lo + 1, hi)),
{
    assert(v.subrange(lo, hi).drop_first() =~= v.subrange(lo + 1, hi));
}

proof fn lemma_trim_end_skip(v: Seq<char>, lo: int, hi: int)
    requires
        0 <= lo < hi <= v.len(),
        is_ws(v[hi - 1]),
    ensures
        trim_end(v.subrange(lo, hi)) == trim_end(v.subrange(lo, hi - 1)),
{
    assert(v.subrange(lo, hi).drop_last() =~= v.subrange(lo, hi - 1));
}

pub proof fn lemma_trim_start_space(s: Seq<char>)
    ensures
        trim_start(seq![' '] + s) == trim_start(s),
{
    assert((seq![' '] + s).drop_first() =~= s);
}

proof fn lemma_trim_start_shape(s: Seq<char>)
    ensures
        trim_start(s).len() <= s.len(),
        trim_start(s) == s.skip(s.len() - trim_start(s).len()),
        trim_start(s).len() > 0 ==> !is_ws(trim_start(s)[0]),
    decreases s.len(),
{
    if s.len() > 0 && is_ws(s[0]) {
        lemma_trim_start_shape(s.drop_first());
        assert(s.drop_first().skip(s.drop_first().len() - trim_start(s).len()) =~= s.skip(
            s.len() - trim_start(s).len(),
        ));
    } else {
        assert(s.skip(0) =~= s);
    }
}

proof fn lemma_trim_end_shape(s: Seq<char>)
    ensures
        trim_end(s).len() <= s.len(),
        trim_end(s) == s.take(trim_end(s).len() as int),
        trim_end(s).len() > 0 ==> !is_ws(trim_end(s).last()),
    decreases s.len(),
{
    if s.len() > 0 && is_ws(s.last()) {
        lemma_trim_end_shape(s.drop_last());
        assert(s.drop_last().take(trim_end(s).len() as int) =~= s.take(trim_end(s).len() as int));
    } else {
        assert(s.take(s.len() as int) =~= s);
    }
}

/// Trimming leaves no whitespace at either end.
pub proof fn lemma_trim_trimmed(s: Seq<char>)
    ensures
        is_trimmed(trim(s)),
{
    let a = trim_start(s);
    lemma_trim_start_shape(s);
    lemma_trim_end_shape(a);
    let r = trim_end(a);
    if r.len() > 0 {
        assert(r[0] == a[0]);
    }
}

pub proof fn lemma_trimmed_fixed(s: Seq<char>)
    requires
        is_trimmed(s),
    ensures
        trim_start(s) == s,
        trim_end(s) == s,
        trim(s) == s,
{
}

/// The number of characters of `s` before its first newline.
pub open spec fn line_len(s: Seq<char>) -> nat
    decreases s.len(),
{
    if s.len() > 0 && s[0] != '\n' {
        1 + line_len(s.drop_first())
    } else {
        0
    }
}

/// A line that a newline ended, without a carriage return just before it.
pub open spec fn strip_cr(piece: Seq<char>) -> Seq<char> {
    if piece.len() > 0 && piece.last() == '\r' {
        piece.drop_last()
    } else {
        piece
    }
}

/// The lines of a text: split at each `\n` (taking a `\r` just before it
/// too); a newline at the very end starts no further line.
pub open spec fn lines_of(s: Seq<char>) -> Seq<Seq<char>>
    decreases s.len(),
{
    if s.len() == 0 {
        Seq::empty()
    } else if line_len(s) < s.len() {
        seq![strip_cr(s.take(line_len(s) as int))] + lines_of(s.skip(line_len(s) + 1int))
    } else {
        seq![s]
    }
}

proof fn lemma_line_len_bound(s: Seq<char>)
    ensures
        line_len(s) <= s.len(),
        line_len(s) < s.len() ==> s[line_len(s) as int] == '\n',
    decreases s.len(),
{
    if s.len() > 0 && s[0] != '\n' {
        lemma_line_len_bound(s.drop_first());
    }
}

/// The views of a sequence of strings.
pub open spec fn views(v: Seq<String>) -> Seq<Seq<char>> {
    v.map_values(|x: String| x@)
}

/// The lines of a text, as `str::lines` gives them.
pub fn split_lines(text: &str) -> (r: Vec<String>)
    ensures
        views(r@) == lines_of(text@),
{
    let v = chars_of(text);
    let n = v.len();
    let mut out: Vec<String> = Vec::new();
    let mut i: usize = 0;
    assert(v@.skip(0) =~= v@);
    while i < n
        invariant
            n == v@.len(),
            v@ == text@,
            i <= n,
            lines_of(text@) == views(out@) + lines_of(v@.skip(i as int)),
        decreases n - i,
    {
        let ghost rest = v@.skip(i as int);
        let mut j: usize = i;
        assert(v@.skip(i as int) == rest);
        while j < n && v[j] != '\n'
            invariant
                n == v@.len(),
                i <= j <= n,
                rest == v@.skip(i as int),
                line_len(rest) == (j - i) + line_len(v@.skip(j as int)),
            decreases n - j,
        {
            assert(v@.skip(j as int).drop_first() =~= v@.skip(j + 1));
            j = j + 1;
        }
        proof {
            if j < n {
                assert(v@.skip(j as int)[0] == '\n');
            }
            lemma_line_len_bound(rest);
        }
        let ghost before = out@;
        if j < n {
            let mut e: usize = j;
            if e > i && v[e - 1] == '\r' {
                e = e - 1;
            }
            let piece = string_of(&v, i, e);
            proof {
                assert(rest.take((j - i) as int) =~= v@.subrange(i as int, j as int));
                assert(piece@ =~= strip_cr(rest.take((j - i) as int)));
                assert(rest.skip((j - i) + 1) =~= v@.skip(j + 1));
            }
            out.push(piece);
            i = j + 1;
        } else {
            let piece = string_of(&v, i, n);
            proof {
                assert(piece@ =~= rest);
                assert(v@.skip(n as int) =~= Seq::<char>::empty());
            }
            out.push(piece);
            i = n;
        }
        assert(views(out@) =~= views(before) + views(out@).subrange(before.len() as int, out@.len() as int));
        assert(lines_of(text@) =~= views(out@) + lines_of(v@.skip(i as int)));
    }
    assert(v@.skip(n as int) =~= Seq::<char>::empty());
    assert(views(out@) + Seq::<Seq<char>>::empty() =~= views(out@));
    out
}

/// The bounds of `v[lo..hi]` once whitespace is taken off both ends.
pub fn trim_bounds(v: &Vec<char>, lo: usize, hi: usize) -> (r: (usize, usize))
    requires
        lo <= hi <= v@.len(),
    ensures
        lo <= r.0 <= r.1 <= hi,
        v@.subrange(r.0 as int, r.1 as int) == trim(v@.subrange(lo as int, hi as int)),
{
    let mut a: usize = lo;
    while a < hi && is_whitespace(v[a])
        invariant
            lo <= a <= hi <= v@.len(),
            trim_start(v@.subrange(lo as int, hi as int)) == trim_start(
                v@.subrange(a as int, hi as int),
            ),
        decreases hi - a,
    {
        proof {
            lemma_trim_start_skip(v@, a as int, hi as int);
        }
        a = a + 1;
    }
    assert(trim_start(v@.subrange(a as int, hi as int)) == v@.subrange(a as int, hi as int));
    let mut b: usize = hi;
    while b > a && is_whitespace(v[b - 1])
        invariant
            lo <= a <= b <= hi <= v@.len(),
            trim(v@.subrange(lo as int, hi as int)) == trim_end(v@.subrange(a as int, b as int)),
        decreases b - a,
    {
        proof {
            lemma_trim_end_skip(v@, a as int, b as int);
        }
        b = b - 1;
    }
    (a, b)
}

} // verus!
