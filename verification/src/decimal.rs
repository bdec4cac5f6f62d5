//! Decimal integers: reading them as `str::parse` does, and writing them as
//! `Display` does.
use vstd::prelude::*;
use crate::text::{chars_of, push_char};

verus! {

broadcast use vstd::slice::group_slice_axioms;

/// Why a text is not an integer of the wanted type (`std::num::IntErrorKind`).
#[derive(Debug, Clone, Copy, PartialEq, Eq, Structural)]
pub enum IntErrorKind {
    Empty,
    InvalidDigit,
    PosOverflow,
    NegOverflow,
}

impl IntErrorKind {
    /// The message `std::num::ParseIntError` displays for this kind.
    pub open spec fn spec_message(self) -> Seq<char> {
        match self {
            IntErrorKind::Empty => "cannot parse integer from empty string"@,
            IntErrorKind::InvalidDigit => "invalid digit found in string"@,
            IntErrorKind::PosOverflow => "number too large to fit in target type"@,
            IntErrorKind::NegOverflow => "number too small to fit in target type"@,
        }
    }

    /// The message `std::num::ParseIntError` displays for this kind.
    pub fn message(&self) -> (r: String)
        ensures
            r@ == self.spec_message(),
    {
        match self {
            IntErrorKind::Empty => String::from_str("cannot parse integer from empty string"),
            IntErrorKind::InvalidDigit => String::from_str("invalid digit found in string"),
            IntErrorKind::PosOverflow => String::from_str("number too large to fit in target type"),
            IntErrorKind::NegOverflow => String::from_str("number too small to fit in target type"),
        }
    }
}

/// An ASCII decimal digit.
pub open spec fn is_digit(c: char) -> bool {
    '0' <= c && c <= '9'
}

/// The value of an ASCII decimal digit.
pub open spec fn digit_value(c: char) -> nat {
    (c as u32 - '0' as u32) as nat
}

/// Reads the digits `d` left to right as `str::parse` does: the first character
/// that is no digit gives `InvalidDigit`, the first prefix whose value exceeds
/// `bound` gives `overflow`, whichever comes first.
pub open spec fn scan_digits(d: Seq<char>, bound: nat, overflow: IntErrorKind) -> Result<nat, IntErrorKind>
    decreases d.len(),
{
    if d.len() == 0 {
        Ok(0)
    } else {
        match scan_digits(d.drop_last(), bound, overflow) {
            Err(e) => Err(e),
            Ok(v) => if !is_digit(d.last()) {
                Err(IntErrorKind::InvalidDigit)
            } else if v * 10 + digit_value(d.last()) > bound {
                Err(overflow)
            } else {
                Ok(v * 10 + digit_value(d.last()))
            },
        }
    }
}

/// `str::parse` of an integer type ranging over `[min, max]` (signed when `min < 0`):
/// an optional `+` (or `-` for signed types) followed by at least one digit.
pub open spec fn spec_parse_int(s: Seq<char>, min: int, max: int) -> Result<int, IntErrorKind> {
    if s.len() == 0 {
        Err(IntErrorKind::Empty)
    } else if (s[0] == '+' || s[0] == '-') && s.len() == 1 {
        Err(IntErrorKind::InvalidDigit)
    } else if min < 0 && s[0] == '-' {
        match scan_digits(s.drop_first(), (-min) as nat, IntErrorKind::NegOverflow) {
            Ok(v) => Ok(-v),
            Err(e) => Err(e),
        }
    } else {
        let d = if s[0] == '+' {
            s.drop_first()
        } else {
            s
        };
        match scan_digits(d, max as nat, IntErrorKind::PosOverflow) {
            Ok(v) => Ok(v as int),
            Err(e) => Err(e),
        }
    }
}

/// `str::parse::<u8>`.
pub open spec fn spec_parse_u8(s: Seq<char>) -> Result<int, IntErrorKind> {
    spec_parse_int(s, 0, u8::MAX as int)
}

/// `str::parse::<u32>`.
pub open spec fn spec_parse_u32(s: Seq<char>) -> Result<int, IntErrorKind> {
    spec_parse_int(s, 0, u32::MAX as int)
}

/// `str::parse::<u64>`.
pub open spec fn spec_parse_u64(s: Seq<char>) -> Result<int, IntErrorKind> {
    spec_parse_int(s, 0, u64::MAX as int)
}

/// `str::parse::<i32>`.
pub open spec fn spec_parse_i32(s: Seq<char>) -> Result<int, IntErrorKind> {
    spec_parse_int(s, i32::MIN as int, i32::MAX as int)
}

proof fn lemma_scan_bound(d: Seq<char>, bound: nat, overflow: IntErrorKind)
    ensures
        scan_digits(d, bound, overflow) matches Ok(v) ==> v <= bound,
    decreases d.len(),
{
    if d.len() > 0 {
        lemma_scan_bound(d.drop_last(), bound, overflow);
    }
}

/// Reads digits `d` as `scan_digits` does, for `bound <= 2^64`.
fn scan(d: &[char], start: usize, bound: u128, overflow: IntErrorKind) -> (r: Result<u128, IntErrorKind>)
    requires
        start <= d@.len(),
        bound <= 0x1_0000_0000_0000_0000,
    ensures
        match scan_digits(d@.subrange(start as int, d@.len() as int), bound as nat, overflow) {
            Ok(v) => r == Ok::<u128, IntErrorKind>(v as u128),
            Err(e) => r == Err::<u128, IntErrorKind>(e),
        },
{
    let mut acc: u128 = 0;
    let mut i = start;
    while i < d.len()
        invariant
            start <= i <= d@.len(),
            bound <= 0x1_0000_0000_0000_0000,
            acc <= bound,
            scan_digits(d@.subrange(start as int, i as int), bound as nat, overflow) == Ok::<
                nat,
                IntErrorKind,
            >(acc as nat),
        decreases d@.len() - i,
    {
        let c = d[i];
        proof {
            let p = d@.subrange(start as int, i + 1);
            assert(p.drop_last() =~= d@.subrange(start as int, i as int));
            assert(p.last() == c);
        }
        if !('0' <= c && c <= '9') {
            proof {
                lemma_scan_rest_err(d@, start as int, i as int + 1, bound as nat, overflow);
            }
            return Err(IntErrorKind::InvalidDigit);
        }
        let v = acc * 10 + (c as u32 - '0' as u32) as u128;
        if v > bound {
            proof {
                lemma_scan_rest_err(d@, start as int, i as int + 1, bound as nat, overflow);
            }
            return Err(overflow);
        }
        acc = v;
        i = i + 1;
    }
    Ok(acc)
}

/// Once a prefix fails, every longer prefix fails the same way.
proof fn lemma_scan_rest_err(d: Seq<char>, start: int, i: int, bound: nat, overflow: IntErrorKind)
    requires
        0 <= start <= i <= d.len(),
        scan_digits(d.subrange(start, i), bound, overflow) is Err,
    ensures
        scan_digits(d.subrange(start, d.len() as int), bound, overflow) == scan_digits(
            d.subrange(start, i),
            bound,
            overflow,
        ),
    decreases d.len() - i,
{
    if i < d.len() {
        let p = d.subrange(start, i + 1);
        assert(p.drop_last() =~= d.subrange(start, i));
        lemma_scan_rest_err(d, start, i + 1, bound, overflow);
    }
}

/// `str::parse` of an integer type ranging over `[min, max]`.
pub fn parse_int(s: &[char], min: i128, max: i128) -> (r: Result<i128, IntErrorKind>)
    requires
        -0x1_0000_0000_0000_0000 <= min <= 0 <= max <= 0x1_0000_0000_0000_0000,
    ensures
        match spec_parse_int(s@, min as int, max as int) {
            Ok(v) => r == Ok::<i128, IntErrorKind>(v as i128),
            Err(e) => r == Err::<i128, IntErrorKind>(e),
        },
{
    if s.len() == 0 {
        return Err(IntErrorKind::Empty);
    }
    let first = s[0];
    if (first == '+' || first == '-') && s.len() == 1 {
        return Err(IntErrorKind::InvalidDigit);
    }
    if min < 0 && first == '-' {
        proof {
            assert(s@.drop_first() =~= s@.subrange(1, s@.len() as int));
        }
        let r = scan(s, 1, (-min) as u128, IntErrorKind::NegOverflow);
        proof {
            lemma_scan_bound(s@.drop_first(), (-min) as nat, IntErrorKind::NegOverflow);
        }
        match r {
            Ok(v) => Ok(-(v as i128)),
            Err(e) => Err(e),
        }
    } else {
        let start: usize = if first == '+' {
            1
        } else {
            0
        };
        proof {
            if first == '+' {
                assert(s@.drop_first() =~= s@.subrange(1, s@.len() as int));
            } else {
                assert(s@ =~= s@.subrange(0, s@.len() as int));
            }
        }
        let r = scan(s, start, max as u128, IntErrorKind::PosOverflow);
        proof {
            lemma_scan_bound(s@.subrange(start as int, s@.len() as int), max as nat, IntErrorKind::PosOverflow);
        }
        match r {
            Ok(v) => Ok(v as i128),
            Err(e) => Err(e),
        }
    }
}

/// `str::parse::<u8>`.
pub fn parse_u8(s: &str) -> (r: Result<u8, IntErrorKind>)
    ensures
        match spec_parse_u8(s@) {
            Ok(v) => r == Ok::<u8, IntErrorKind>(v as u8),
            Err(e) => r == Err::<u8, IntErrorKind>(e),
        },
{
    let cs = chars_of(s);
    match parse_int(cs.as_slice(), 0, u8::MAX as i128) {
        Ok(v) => Ok(v as u8),
        Err(e) => Err(e),
    }
}

/// `str::parse::<u32>`.
pub fn parse_u32(s: &str) -> (r: Result<u32, IntErrorKind>)
    ensures
        match spec_parse_u32(s@) {
            Ok(v) => r == Ok::<u32, IntErrorKind>(v as u32),
            Err(e) => r == Err::<u32, IntErrorKind>(e),
        },
{
    let cs = chars_of(s);
    match parse_int(cs.as_slice(), 0, u32::MAX as i128) {
        Ok(v) => Ok(v as u32),
        Err(e) => Err(e),
    }
}

/// `str::parse::<u64>`.
pub fn parse_u64(s: &str) -> (r: Result<u64, IntErrorKind>)
    ensures
        match spec_parse_u64(s@) {
            Ok(v) => r == Ok::<u64, IntErrorKind>(v as u64),
            Err(e) => r == Err::<u64, IntErrorKind>(e),
        },
{
    let cs = chars_of(s);
    match parse_int(cs.as_slice(), 0, u64::MAX as i128) {
        Ok(v) => Ok(v as u64),
        Err(e) => Err(e),
    }
}

/// `str::parse::<i32>`.
pub fn parse_i32(s: &str) -> (r: Result<i32, IntErrorKind>)
    ensures
        match spec_parse_i32(s@) {
            Ok(v) => r == Ok::<i32, IntErrorKind>(v as i32),
            Err(e) => r == Err::<i32, IntErrorKind>(e),
        },
{
    let cs = chars_of(s);
    match parse_int(cs.as_slice(), i32::MIN as i128, i32::MAX as i128) {
        Ok(v) => Ok(v as i32),
        Err(e) => Err(e),
    }
}

/// The ASCII digit for `d < 10`.
pub open spec fn digit_char(d: nat) -> char {
    ('0' as u32 + d) as char
}

/// The decimal digits of `n`, without leading zeros (`Display` of an unsigned integer).
pub open spec fn spec_decimal(n: nat) -> Seq<char>
    decreases n,
{
    if n < 10 {
        seq![digit_char(n)]
    } else {
        spec_decimal(n / 10).push(digit_char(n % 10))
    }
}

/// `Display` of a signed integer: a `-` before the digits of a negative value.
pub open spec fn spec_signed_decimal(n: int) -> Seq<char> {
    if n < 0 {
        seq!['-'] + spec_decimal((-n) as nat)
    } else {
        spec_decimal(n as nat)
    }
}

/// `n.to_string()` for an unsigned integer.
pub fn u64_to_string(n: u64) -> (r: String)
    ensures
        r@ == spec_decimal(n as nat),
    decreases n,
{
    if n < 10 {
        let mut r = String::new();
        push_char(&mut r, ((n as u8) + 48u8) as char);
        proof {
            assert(r@ =~= spec_decimal(n as nat));
        }
        r
    } else {
        let mut r = u64_to_string(n / 10);
        push_char(&mut r, (((n % 10) as u8) + 48u8) as char);
        r
    }
}

/// `n.to_string()` for a signed integer.
pub fn i64_to_string(n: i64) -> (r: String)
    ensures
        r@ == spec_signed_decimal(n as int),
{
    if n < 0 {
        let mag: u64 = if n == i64::MIN {
            0x8000_0000_0000_0000
        } else {
            (-n) as u64
        };
        let digits = u64_to_string(mag);
        let mut r = String::new();
        push_char(&mut r, '-');
        crate::text::push_str(&mut r, digits.as_str());
        proof {
            assert(r@ =~= seq!['-'] + spec_decimal((-n) as nat));
        }
        r
    } else {
        u64_to_string(n as u64)
    }
}

/// The decimal digits of a number are at least one, all ASCII digits.
pub proof fn lemma_decimal_digits(n: nat)
    ensures
        spec_decimal(n).len() >= 1,
        forall|i: int| 0 <= i < spec_decimal(n).len() ==> is_digit(#[trigger] spec_decimal(n)[i]),
    decreases n,
{
    if n >= 10 {
        lemma_decimal_digits(n / 10);
        let p = spec_decimal(n / 10);
        assert forall|i: int| 0 <= i < spec_decimal(n).len() implies is_digit(
            #[trigger] spec_decimal(n)[i],
        ) by {
            if i < p.len() {
                assert(spec_decimal(n)[i] == p[i]);
            }
        }
    }
}

/// Reading the decimal digits of `n` gives back `n`.
pub proof fn lemma_scan_decimal(n: nat, bound: nat, overflow: IntErrorKind)
    requires
        n <= bound,
    ensures
        scan_digits(spec_decimal(n), bound, overflow) == Ok::<nat, IntErrorKind>(n),
    decreases n,
{
    let d = spec_decimal(n);
    if n < 10 {
        assert(d.drop_last() =~= Seq::<char>::empty());
    } else {
        lemma_scan_decimal(n / 10, bound, overflow);
        assert(d.drop_last() =~= spec_decimal(n / 10));
    }
}

/// `str::parse` of the decimal digits of `n` gives back `n`, for every integer
/// type that holds `n`.
pub proof fn lemma_parse_decimal(n: nat, min: int, max: int)
    requires
        min <= 0,
        n <= max,
    ensures
        spec_parse_int(spec_decimal(n), min, max) == Ok::<int, IntErrorKind>(n as int),
{
    lemma_decimal_digits(n);
    lemma_scan_decimal(n, max as nat, IntErrorKind::PosOverflow);
    let d = spec_decimal(n);
    assert(is_digit(d[0]));
}

/// The decimals of a thousandths part `f < 1000`, trailing zeros dropped.
pub open spec fn spec_milli_decimals(f: nat) -> Seq<char> {
    if f % 100 == 0 {
        seq![digit_char(f / 100)]
    } else if f % 10 == 0 {
        seq![digit_char(f / 100), digit_char((f / 10) % 10)]
    } else {
        seq![digit_char(f / 100), digit_char((f / 10) % 10), digit_char(f % 10)]
    }
}

/// A value in thousandths written with as few decimals as it needs: `32`, `32.5`,
/// `0.125`.
pub open spec fn spec_terse_milli(v: nat) -> Seq<char> {
    if v % 1000 == 0 {
        spec_decimal(v / 1000)
    } else {
        spec_decimal(v / 1000) + seq!['.'] + spec_milli_decimals(v % 1000)
    }
}

/// The text of a value in thousandths with as few decimals as it needs.
pub fn terse_milli(v: u64) -> (r: String)
    ensures
        r@ == spec_terse_milli(v as nat),
{
    let mut r = u64_to_string(v / 1000);
    let f = v % 1000;
    if f != 0 {
        push_char(&mut r, '.');
        push_char(&mut r, (((f / 100) as u8) + 48u8) as char);
        if f % 100 != 0 {
            push_char(&mut r, ((((f / 10) % 10) as u8) + 48u8) as char);
            if f % 10 != 0 {
                push_char(&mut r, (((f % 10) as u8) + 48u8) as char);
            }
        }
    }
    assert(r@ =~= spec_terse_milli(v as nat));
    r
}

/// `str::parse` of the signed decimal text of `n` gives back `n`, for every
/// integer type that holds `n`.
pub proof fn lemma_parse_signed_decimal(n: int, min: int, max: int)
    requires
        min <= 0,
        min <= n <= max,
    ensures
        spec_parse_int(spec_signed_decimal(n), min, max) == Ok::<int, IntErrorKind>(n),
{
    if n < 0 {
        let m = (-n) as nat;
        let t = spec_signed_decimal(n);
        lemma_decimal_digits(m);
        lemma_scan_decimal(m, (-min) as nat, IntErrorKind::NegOverflow);
        assert(t.drop_first() =~= spec_decimal(m));
        assert(t[0] == '-');
        assert(t.len() >= 2);
    } else {
        lemma_parse_decimal(n as nat, min, max);
    }
}

} // verus!
