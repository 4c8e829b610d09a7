//! Character-level helpers shared by the formatters: a whitespace model,
//! trimming, decimal rendering, and conversions between strings and
//! character vectors.

use vstd::prelude::*;

verus! {

/// The Unicode `White_Space` characters, the set `char::is_whitespace`
/// recognises and `str::trim` strips.
pub open spec fn is_ws(c: char) -> bool {
    c == ' ' || c == '\t' || c == '\n' || c == '\r' || c == '\u{000B}' || c == '\u{000C}'
        || c == '\u{0085}' || c == '\u{00A0}' || c == '\u{1680}' || c == '\u{2000}'
        || c == '\u{2001}' || c == '\u{2002}' || c == '\u{2003}' || c == '\u{2004}'
        || c == '\u{2005}' || c == '\u{2006}' || c == '\u{2007}' || c == '\u{2008}'
        || c == '\u{2009}' || c == '\u{200A}' || c == '\u{2028}' || c == '\u{2029}'
        || c == '\u{202F}' || c == '\u{205F}' || c == '\u{3000}'
}

pub fn is_ws_char(c: char) -> (r: bool)
    ensures
        r == is_ws(c),
{
    c == ' ' || c == '\t' || c == '\n' || c == '\r' || c == '\u{000B}' || c == '\u{000C}'
        || c == '\u{0085}' || c == '\u{00A0}' || c == '\u{1680}' || c == '\u{2000}'
        || c == '\u{2001}' || c == '\u{2002}' || c == '\u{2003}' || c == '\u{2004}'
        || c == '\u{2005}' || c == '\u{2006}' || c == '\u{2007}' || c == '\u{2008}'
        || c == '\u{2009}' || c == '\u{200A}' || c == '\u{2028}' || c == '\u{2029}'
        || c == '\u{202F}' || c == '\u{205F}' || c == '\u{3000}'
}

pub open spec fn trim_start_of(s: Seq<char>) -> Seq<char>
    decreases s.len(),
{
    if s.len() > 0 && is_ws(s[0]) {
        trim_start_of(s.drop_first())
    } else {
        s
    }
}

pub open spec fn trim_end_of(s: Seq<char>) -> Seq<char>
    decreases s.len(),
{
    if s.len() > 0 && is_ws(s[s.len() - 1]) {
        trim_end_of(s.drop_last())
    } else {
        s
    }
}

/// What `str::trim` leaves: the sequence with leading and trailing
/// whitespace removed.
pub open spec fn trim_of(s: Seq<char>) -> Seq<char> {
    trim_end_of(trim_start_of(s))
}

/// A sequence without any whitespace characters is its own trim.
pub proof fn lemma_trim_no_ws(s: Seq<char>)
    requires
        forall|i: int| 0 <= i < s.len() ==> !is_ws(s[i]),
    ensures
        trim_of(s) == s,
{
}

pub proof fn lemma_trim_start_subrange(s: Seq<char>, lo: int)
    requires
        0 <= lo <= s.len(),
        forall|i: int| 0 <= i < lo ==> is_ws(s[i]),
    ensures
        trim_start_of(s) == trim_start_of(s.subrange(lo, s.len() as int)),
    decreases lo,
{
    if lo > 0 {
        assert(s.subrange(0, s.len() as int) =~= s);
        assert(trim_start_of(s) == trim_start_of(s.drop_first()));
        assert(s.drop_first() =~= s.subrange(1, s.len() as int));
        lemma_trim_start_subrange_shift(s, 1, lo);
    } else {
        assert(s.subrange(0, s.len() as int) =~= s);
    }
}

proof fn lemma_trim_start_subrange_shift(s: Seq<char>, base: int, lo: int)
    requires
        0 < base <= lo <= s.len(),
        forall|i: int| 0 <= i < lo ==> is_ws(s[i]),
    ensures
        trim_start_of(s.subrange(base, s.len() as int)) == trim_start_of(
            s.subrange(lo, s.len() as int),
        ),
    decreases lo - base,
{
    if base < lo {
        let t = s.subrange(base, s.len() as int);
        assert(is_ws(t[0]));
        assert(t.drop_first() =~= s.subrange(base + 1, s.len() as int));
        lemma_trim_start_subrange_shift(s, base + 1, lo);
    }
}

pub proof fn lemma_trim_end_subrange(s: Seq<char>, hi: int)
    requires
        0 <= hi <= s.len(),
        forall|i: int| hi <= i < s.len() ==> is_ws(s[i]),
    ensures
        trim_end_of(s) == trim_end_of(s.subrange(0, hi)),
    decreases s.len() - hi,
{
    if hi < s.len() {
        assert(is_ws(s[s.len() - 1]));
        assert(s.drop_last() =~= s.subrange(0, s.len() - 1));
        lemma_trim_end_subrange(s.subrange(0, s.len() - 1), hi);
        assert(s.subrange(0, s.len() - 1).subrange(0, hi) =~= s.subrange(0, hi));
    } else {
        assert(s.subrange(0, s.len() as int) =~= s);
    }
}

/// Relies on `String::push`: appends exactly the one character.
#[verifier::external_body]
pub fn push_char(s: &mut String, c: char)
    ensures
        final(s)@ == old(s)@.push(c),
{
    s.push(c);
}

/// The characters of `s`, in order.
pub fn str_to_chars(s: &str) -> (r: Vec<char>)
    ensures
        r@ == s@,
{
    let n = s.unicode_len();
    let mut v: Vec<char> = Vec::new();
    let mut i: usize = 0;
    while i < n
        invariant
            n == s@.len(),
            i <= n,
            v@ =~= s@.subrange(0, i as int),
        decreases n - i,
    {
        v.push(s.get_char(i));
        i += 1;
    }
    assert(v@ =~= s@);
    v
}

/// The string holding exactly the characters of `v`.
pub fn chars_to_string(v: &Vec<char>) -> (r: String)
    ensures
        r@ == v@,
{
    let mut s = String::new();
    let mut i: usize = 0;
    while i < v.len()
        invariant
            i <= v@.len(),
            s@ =~= v@.subrange(0, i as int),
        decreases v@.len() - i,
    {
        push_char(&mut s, v[i]);
        i += 1;
    }
    assert(s@ =~= v@);
    s
}

/// `v` with leading and trailing whitespace removed.
pub fn trim_chars(v: &Vec<char>) -> (r: Vec<char>)
    ensures
        r@ == trim_of(v@),
{
    let n = v.len();
    let mut lo: usize = 0;
    while lo < n && is_ws_char(v[lo])
        invariant
            n == v@.len(),
            lo <= n,
            forall|i: int| 0 <= i < lo ==> is_ws(v@[i]),
        decreases n - lo,
    {
        lo += 1;
    }
    proof {
        lemma_trim_start_subrange(v@, lo as int);
    }
    let ghost st = v@.subrange(lo as int, n as int);
    assert(trim_start_of(v@) == trim_start_of(st));
    assert(trim_start_of(st) == st);
    let mut hi: usize = n;
    while hi > lo && is_ws_char(v[hi - 1])
        invariant
            n == v@.len(),
            lo <= hi <= n,
            forall|i: int| hi <= i < n ==> is_ws(v@[i]),
        decreases hi,
    {
        hi -= 1;
    }
    proof {
        lemma_trim_end_subrange(st, hi - lo);
        assert(st.subrange(0, hi - lo) =~= v@.subrange(lo as int, hi as int));
    }
    let ghost te = v@.subrange(lo as int, hi as int);
    assert(trim_of(v@) == trim_end_of(te));
    assert(trim_end_of(te) == te);
    let mut r: Vec<char> = Vec::new();
    let mut i: usize = lo;
    while i < hi
        invariant
            lo <= i <= hi <= v@.len(),
            r@ =~= v@.subrange(lo as int, i as int),
        decreases hi - i,
    {
        r.push(v[i]);
        i += 1;
    }
    assert(r@ =~= te);
    r
}

/// The decimal digit character for `d`.
pub open spec fn dec_digit(d: nat) -> char {
    if d == 0 {
        '0'
    } else if d == 1 {
        '1'
    } else if d == 2 {
        '2'
    } else if d == 3 {
        '3'
    } else if d == 4 {
        '4'
    } else if d == 5 {
        '5'
    } else if d == 6 {
        '6'
    } else if d == 7 {
        '7'
    } else if d == 8 {
        '8'
    } else {
        '9'
    }
}

/// The usual decimal rendering of `n`, without leading zeros.
pub open spec fn dec_str(n: nat) -> Seq<char>
    decreases n,
{
    if n < 10 {
        seq![dec_digit(n)]
    } else {
        dec_str(n / 10) + seq![dec_digit(n % 10)]
    }
}

fn digit_char(d: usize) -> (c: char)
    requires
        d < 10,
    ensures
        c == dec_digit(d as nat),
{
    if d == 0 {
        '0'
    } else if d == 1 {
        '1'
    } else if d == 2 {
        '2'
    } else if d == 3 {
        '3'
    } else if d == 4 {
        '4'
    } else if d == 5 {
        '5'
    } else if d == 6 {
        '6'
    } else if d == 7 {
        '7'
    } else if d == 8 {
        '8'
    } else {
        '9'
    }
}

/// Appends the decimal rendering of `n` to `out`.
pub fn push_dec(out: &mut String, n: usize)
    ensures
        final(out)@ == old(out)@ + dec_str(n as nat),
    decreases n,
{
    if n < 10 {
        push_char(out, digit_char(n));
        assert(final(out)@ =~= old(out)@ + dec_str(n as nat));
    } else {
        push_dec(out, n / 10);
        push_char(out, digit_char(n % 10));
        assert(final(out)@ =~= old(out)@ + dec_str(n as nat));
    }
}

/// Two-space indentation for `n` nesting levels.
pub open spec fn indent_sq(n: nat) -> Seq<char> {
    Seq::new(2 * n, |i: int| ' ')
}

/// Appends `levels` levels of two-space indentation to `out`.
pub fn push_indent(out: &mut String, levels: usize)
    ensures
        final(out)@ == old(out)@ + indent_sq(levels as nat),
{
    let mut j: usize = 0;
    proof {
        reveal_strlit("  ");
    }
    while j < levels
        invariant
            j <= levels,
            "  "@ =~= seq![' ', ' '],
            out@ =~= old(out)@ + indent_sq(j as nat),
        decreases levels - j,
    {
        out.append("  ");
        j += 1;
        assert(out@ =~= old(out)@ + indent_sq(j as nat));
    }
}

/// Whether the views of two string slices are equal.
pub fn eq_str(a: &str, b: &str) -> (r: bool)
    ensures
        r == (a@ == b@),
{
    let na = a.unicode_len();
    let nb = b.unicode_len();
    if na != nb {
        return false;
    }
    let mut i: usize = 0;
    while i < na
        invariant
            na == a@.len(),
            na == b@.len(),
            i <= na,
            forall|j: int| 0 <= j < i ==> a@[j] == b@[j],
        decreases na - i,
    {
        if a.get_char(i) != b.get_char(i) {
            return false;
        }
        i += 1;
    }
    assert(a@ =~= b@);
    true
}

/// The index of the first occurrence of `c` in `s`, or `s.len()` if absent.
pub open spec fn first_idx_of(s: Seq<char>, c: char) -> int
    decreases s.len(),
{
    if s.len() == 0 {
        0
    } else if s[0] == c {
        0
    } else {
        1 + first_idx_of(s.drop_first(), c)
    }
}

pub proof fn lemma_first_idx_of(s: Seq<char>, c: char)
    ensures
        0 <= first_idx_of(s, c) <= s.len(),
        first_idx_of(s, c) < s.len() ==> s[first_idx_of(s, c)] == c,
        forall|j: int| 0 <= j < first_idx_of(s, c) ==> s[j] != c,
    decreases s.len(),
{
    if s.len() > 0 && s[0] != c {
        lemma_first_idx_of(s.drop_first(), c);
        assert forall|j: int| 0 <= j < first_idx_of(s, c) implies s[j] != c by {
            if j > 0 {
                assert(s.drop_first()[j - 1] != c);
            }
        }
    }
}

/// A line as `str::lines` reports it: any trailing carriage return is
/// dropped.
pub open spec fn strip_cr(l: Seq<char>) -> Seq<char> {
    if l.len() > 0 && l[l.len() - 1] == '\r' {
        l.drop_last()
    } else {
        l
    }
}

/// The lines of `s` as `str::lines` yields them: split at `'\n'`, no line
/// for a trailing newline, carriage returns stripped at line ends.
pub open spec fn lines_of(s: Seq<char>) -> Seq<Seq<char>>
    decreases s.len(),
{
    if s.len() == 0 {
        Seq::empty()
    } else {
        let j = first_idx_of(s, '\n');
        if 0 <= j < s.len() {
            seq![strip_cr(s.subrange(0, j))] + lines_of(s.subrange(j + 1, s.len() as int))
        } else {
            seq![strip_cr(s)]
        }
    }
}

/// The `k`-th line of `s`, or empty when out of range.
pub open spec fn line_at(s: Seq<char>, k: int) -> Seq<char> {
    if 0 <= k < lines_of(s).len() {
        lines_of(s)[k]
    } else {
        Seq::empty()
    }
}

fn nth_line_from(v: &Vec<char>, start: usize, k: usize) -> (r: Vec<char>)
    requires
        start <= v@.len(),
    ensures
        r@ == line_at(v@.subrange(start as int, v@.len() as int), k as int),
    decreases v@.len() - start,
{
    let ghost s = v@.subrange(start as int, v@.len() as int);
    let n = v.len();
    if start == n {
        let r: Vec<char> = Vec::new();
        assert(r@ =~= line_at(s, k as int));
        return r;
    }
    let mut j = start;
    while j < n && v[j] != '\n'
        invariant
            start <= j <= n,
            n == v@.len(),
            forall|t: int| start <= t < j ==> v@[t] != '\n',
        decreases n - j,
    {
        j += 1;
    }
    proof {
        assert forall|t: int| 0 <= t < j - start implies s[t] != '\n' by {
            assert(s[t] == v@[t + start]);
        }
        lemma_first_idx_of_is(s, '\n', j - start);
    }
    if k == 0 {
        let mut endi = j;
        if endi > start && v[endi - 1] == '\r' {
            endi -= 1;
        }
        let mut r: Vec<char> = Vec::new();
        let mut i = start;
        while i < endi
            invariant
                start <= i <= endi <= v@.len(),
                r@ =~= v@.subrange(start as int, i as int),
            decreases endi - i,
        {
            r.push(v[i]);
            i += 1;
        }
        proof {
            let raw = if j < n {
                s.subrange(0, j - start)
            } else {
                s
            };
            assert(s.subrange(0, s.len() as int) =~= s);
            assert(raw =~= s.subrange(0, j - start));
            assert(lines_of(s)[0] == strip_cr(s.subrange(0, j - start)));
            if j > start && v@[j - 1] == '\r' {
                assert(s.subrange(0, j - start)[j - start - 1] == '\r');
                assert(r@ =~= s.subrange(0, j - start).drop_last());
            } else {
                if j > start {
                    assert(s.subrange(0, j - start)[j - start - 1] == v@[j - 1]);
                }
                assert(r@ =~= s.subrange(0, j - start));
            }
        }
        r
    } else if j == n {
        let r: Vec<char> = Vec::new();
        assert(r@ =~= line_at(s, k as int));
        r
    } else {
        let r = nth_line_from(v, j + 1, k - 1);
        proof {
            assert(v@.subrange(j + 1, n as int) =~= s.subrange(j - start + 1, s.len() as int));
            assert(lines_of(s) == seq![strip_cr(s.subrange(0, j - start))] + lines_of(
                s.subrange(j - start + 1, s.len() as int),
            ));
        }
        r
    }
}

/// The `k`-th line of `v`, as `str::lines` would report it; empty when `v`
/// has fewer lines.
pub fn nth_line(v: &Vec<char>, k: usize) -> (r: Vec<char>)
    ensures
        r@ == line_at(v@, k as int),
{
    let r = nth_line_from(v, 0, k);
    proof {
        assert(v@.subrange(0, v@.len() as int) =~= v@);
    }
    r
}

pub proof fn lemma_first_idx_of_is(s: Seq<char>, c: char, j: int)
    requires
        0 <= j <= s.len(),
        j < s.len() ==> s[j] == c,
        forall|i: int| 0 <= i < j ==> s[i] != c,
    ensures
        first_idx_of(s, c) == j,
    decreases s.len(),
{
    if s.len() > 0 && s[0] != c {
        lemma_first_idx_of_is(s.drop_first(), c, j - 1);
    }
}

} // verus!
