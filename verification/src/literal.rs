//! Which texts `str::parse::<f32>` accepts, as its documentation gives the grammar:
//!
//! ```text
//! Float  ::= Sign? ( 'inf' | 'infinity' | 'nan' | Number )
//! Number ::= ( Digit+ | Digit+ '.' Digit* | Digit* '.' Digit+ ) Exp?
//! Exp    ::= 'e' Sign? Digit+
//! Sign   ::= [+-]
//! Digit  ::= [0-9]
//! ```
//! Letters match in either case; white space anywhere is an error.
use vstd::prelude::*;
use crate::decimal::is_digit;

verus! {

broadcast use vstd::slice::group_slice_axioms;

/// Every character is an ASCII digit.
pub open spec fn all_digits(s: Seq<char>) -> bool {
    forall|i: int| 0 <= i < s.len() ==> is_digit(#[trigger] s[i])
}

/// `c` as ASCII lower case.
pub open spec fn ascii_lower(c: char) -> char {
    if 'A' <= c && c <= 'Z' {
        ((c as u32) + 32) as char
    } else {
        c
    }
}

/// `s` equals `word` (given in lower case) ignoring ASCII case.
pub open spec fn eq_ignore_case(s: Seq<char>, word: Seq<char>) -> bool {
    s.len() == word.len() && forall|i: int| 0 <= i < s.len() ==> ascii_lower(#[trigger] s[i]) == word[i]
}

/// `Digit+ | Digit+ '.' Digit* | Digit* '.' Digit+`.
pub open spec fn is_mantissa(m: Seq<char>) -> bool {
    ||| (m.len() > 0 && all_digits(m))
    ||| exists|p: int|
        0 <= p < m.len() && #[trigger] m[p] == '.' && all_digits(m.subrange(0, p))
            && all_digits(m.subrange(p + 1, m.len() as int)) && m.len() > 1
}

/// `Sign? Digit+`.
pub open spec fn is_exponent(e: Seq<char>) -> bool {
    if e.len() > 0 && (e[0] == '+' || e[0] == '-') {
        e.len() > 1 && all_digits(e.drop_first())
    } else {
        e.len() > 0 && all_digits(e)
    }
}

/// The first index of `e` or `E` in `s`.
pub open spec fn first_exp_mark(s: Seq<char>, i: int) -> Option<int>
    decreases s.len() - i,
{
    if i < 0 || i >= s.len() {
        None
    } else if s[i] == 'e' || s[i] == 'E' {
        Some(i)
    } else {
        first_exp_mark(s, i + 1)
    }
}

/// `Number` of the grammar.
pub open spec fn is_number(t: Seq<char>) -> bool {
    match first_exp_mark(t, 0) {
        None => is_mantissa(t),
        Some(p) => is_mantissa(t.subrange(0, p)) && is_exponent(t.subrange(p + 1, t.len() as int)),
    }
}

/// `Float` of the grammar: what `str::parse::<f32>` accepts.
pub open spec fn spec_is_float_literal(s: Seq<char>) -> bool {
    let t = if s.len() > 0 && (s[0] == '+' || s[0] == '-') {
        s.drop_first()
    } else {
        s
    };
    ||| eq_ignore_case(t, "inf"@)
    ||| eq_ignore_case(t, "infinity"@)
    ||| eq_ignore_case(t, "nan"@)
    ||| is_number(t)
}

fn digits_in(s: &[char], from: usize, to: usize) -> (r: bool)
    requires
        from <= to <= s@.len(),
    ensures
        r == all_digits(s@.subrange(from as int, to as int)),
{
    let mut i = from;
    while i < to
        invariant
            from <= i <= to <= s@.len(),
            all_digits(s@.subrange(from as int, i as int)),
        decreases to - i,
    {
        if !('0' <= s[i] && s[i] <= '9') {
            assert(s@.subrange(from as int, to as int)[i - from] == s@[i as int]);
            return false;
        }
        i = i + 1;
        assert(forall|k: int|
            0 <= k < i - from ==> #[trigger] s@.subrange(from as int, i as int)[k] == s@[from + k]);
    }
    true
}

fn lower(c: char) -> (r: char)
    ensures
        r == ascii_lower(c),
{
    if 'A' <= c && c <= 'Z' {
        ((c as u32 + 32) as u8) as char
    } else {
        c
    }
}

fn ignore_case_eq(s: &[char], from: usize, to: usize, word: &str) -> (r: bool)
    requires
        from <= to <= s@.len(),
    ensures
        r == eq_ignore_case(s@.subrange(from as int, to as int), word@),
{
    let w = crate::text::chars_of(word);
    if to - from != w.len() {
        return false;
    }
    let mut i: usize = 0;
    while i < w.len()
        invariant
            from <= to <= s@.len(),
            to - from == w@.len(),
            w@ == word@,
            i <= w@.len(),
            forall|k: int| 0 <= k < i ==> ascii_lower(s@[from + k]) == w@[k],
        decreases w@.len() - i,
    {
        if lower(s[from + i]) != w[i] {
            assert(s@.subrange(from as int, to as int)[i as int] == s@[from + i]);
            return false;
        }
        i = i + 1;
    }
    true
}

fn mantissa_ok(s: &[char], from: usize, to: usize) -> (r: bool)
    requires
        from <= to <= s@.len(),
    ensures
        r == is_mantissa(s@.subrange(from as int, to as int)),
{
    let ghost m = s@.subrange(from as int, to as int);
    if to > from && digits_in(s, from, to) {
        return true;
    }
    // the position of the first '.'
    let mut p = from;
    while p < to
        invariant
            from <= p <= to <= s@.len(),
            m == s@.subrange(from as int, to as int),
            forall|k: int| from <= k < p ==> s@[k] != '.',
        ensures
            from <= p <= to,
            forall|k: int| from <= k < p ==> s@[k] != '.',
            p < to ==> s@[p as int] == '.',
        decreases to - p,
    {
        if s[p] == '.' {
            break;
        }
        p = p + 1;
    }
    if p == to {
        proof {
            assert forall|q: int| 0 <= q < m.len() implies #[trigger] m[q] != '.' by {
                assert(m[q] == s@[from + q]);
            }
        }
        return false;
    }
    let r = to - from > 1 && digits_in(s, from, p) && digits_in(s, p + 1, to);
    proof {
        let q = p - from;
        assert(m[q] == '.');
        assert(m.subrange(0, q) =~= s@.subrange(from as int, p as int));
        assert(m.subrange(q + 1, m.len() as int) =~= s@.subrange(p + 1, to as int));
        if !r && is_mantissa(m) {
            if m.len() > 0 && all_digits(m) {
                assert(is_digit(m[q]));
            } else {
                let q2 = choose|q2: int|
                    0 <= q2 < m.len() && #[trigger] m[q2] == '.' && all_digits(m.subrange(0, q2))
                        && all_digits(m.subrange(q2 + 1, m.len() as int)) && m.len() > 1;
                if q2 < q {
                    assert(m[q2] == s@[from + q2]);
                } else if q2 > q {
                    assert(m.subrange(0, q2)[q] == m[q]);
                }
            }
        }
    }
    r
}

fn exponent_ok(s: &[char], from: usize, to: usize) -> (r: bool)
    requires
        from <= to <= s@.len(),
    ensures
        r == is_exponent(s@.subrange(from as int, to as int)),
{
    let ghost e = s@.subrange(from as int, to as int);
    if to > from && (s[from] == '+' || s[from] == '-') {
        assert(e.drop_first() =~= s@.subrange(from + 1, to as int));
        to - from > 1 && digits_in(s, from + 1, to)
    } else {
        to > from && digits_in(s, from, to)
    }
}

/// Whether `s` is text that `str::parse::<f32>` accepts.
pub fn is_float_literal(s: &str) -> (r: bool)
    ensures
        r == spec_is_float_literal(s@),
{
    let cs = crate::text::chars_of(s);
    let n = cs.len();
    let start: usize = if n > 0 && (cs[0] == '+' || cs[0] == '-') {
        1
    } else {
        0
    };
    let ghost t = if s@.len() > 0 && (s@[0] == '+' || s@[0] == '-') {
        s@.drop_first()
    } else {
        s@
    };
    assert(t =~= cs@.subrange(start as int, n as int));
    if ignore_case_eq(cs.as_slice(), start, n, "inf") || ignore_case_eq(
        cs.as_slice(),
        start,
        n,
        "infinity",
    ) || ignore_case_eq(cs.as_slice(), start, n, "nan") {
        return true;
    }
    let mut p = start;
    while p < n
        invariant
            start <= p <= n,
            n == cs@.len(),
            t == cs@.subrange(start as int, n as int),
            first_exp_mark(t, 0) == first_exp_mark(t, p - start),
        ensures
            start <= p <= n,
            first_exp_mark(t, 0) == first_exp_mark(t, p - start),
            p < n ==> (cs@[p as int] == 'e' || cs@[p as int] == 'E'),
        decreases n - p,
    {
        if cs[p] == 'e' || cs[p] == 'E' {
            break;
        }
        p = p + 1;
    }
    if p == n {
        assert(t =~= cs@.subrange(start as int, n as int));
        mantissa_ok(cs.as_slice(), start, n)
    } else {
        assert(t[p - start] == cs@[p as int]);
        assert(first_exp_mark(t, p - start) == Some(p - start));
        assert(t.subrange(0, p - start) =~= cs@.subrange(start as int, p as int));
        assert(t.subrange(p - start + 1, t.len() as int) =~= cs@.subrange(p + 1, n as int));
        mantissa_ok(cs.as_slice(), start, p) && exponent_ok(cs.as_slice(), p + 1, n)
    }
}

} // verus!
