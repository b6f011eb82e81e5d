//! Decimal and hexadecimal rendering of integers, and parsing of unsigned
//! integers in the manner of `from_str_radix`.
use vstd::prelude::*;
use crate::text::{push_char, string_lit};

verus! {

/// The digit for `d` (`0`-`9`, then upper-case `A`-`F`).
pub open spec fn digit_of(d: nat) -> char {
    if d < 10 {
        ((48 + d) as u32) as char
    } else {
        ((55 + d) as u32) as char
    }
}

/// Decimal rendering of `n` (`format!("{n}")`).
pub open spec fn dec(n: nat) -> Seq<char>
    decreases n,
{
    if n < 10 {
        seq![digit_of(n)]
    } else {
        dec(n / 10).push(digit_of(n % 10))
    }
}

/// Upper-case hexadecimal rendering of `n` without prefix (`format!("{n:X}")`).
pub open spec fn hex(n: nat) -> Seq<char>
    decreases n,
{
    if n < 16 {
        seq![digit_of(n)]
    } else {
        hex(n / 16).push(digit_of(n % 16))
    }
}

fn digit_char(d: u64) -> (c: char)
    requires
        d < 16,
    ensures
        c == digit_of(d as nat),
{
    if d < 10 {
        (48u8 + d as u8) as char
    } else {
        (55u8 + d as u8) as char
    }
}

/// Appends the decimal rendering of `n`.
pub fn push_dec(s: &mut String, n: u64)
    ensures
        final(s)@ == old(s)@ + dec(n as nat),
    decreases n,
{
    if n >= 10 {
        push_dec(s, n / 10);
    }
    push_char(s, digit_char(n % 10));
}

/// Appends the upper-case hexadecimal rendering of `n`.
pub fn push_hex(s: &mut String, n: u64)
    ensures
        final(s)@ == old(s)@ + hex(n as nat),
    decreases n,
{
    if n >= 16 {
        push_hex(s, n / 16);
    }
    push_char(s, digit_char(n % 16));
}

/// The reasons an unsigned integer fails to parse (`IntErrorKind`).
#[derive(Clone, Copy, Debug, PartialEq, Eq, Structural)]
pub enum IntErrorKind {
    Empty,
    InvalidDigit,
    PosOverflow,
}

/// The message of a parse failure (`ParseIntError`'s `Display`).
pub open spec fn int_error_text(k: IntErrorKind) -> Seq<char> {
    match k {
        IntErrorKind::Empty => "cannot parse integer from empty string"@,
        IntErrorKind::InvalidDigit => "invalid digit found in string"@,
        IntErrorKind::PosOverflow => "number too large to fit in target type"@,
    }
}

pub fn int_error_string(k: IntErrorKind) -> (r: String)
    ensures
        r@ == int_error_text(k),
{
    match k {
        IntErrorKind::Empty => string_lit("cannot parse integer from empty string"),
        IntErrorKind::InvalidDigit => string_lit("invalid digit found in string"),
        IntErrorKind::PosOverflow => string_lit("number too large to fit in target type"),
    }
}

/// The value of `c` as a digit in base `radix` (10 or 16; `char::to_digit`).
pub open spec fn digit_value(c: char, radix: nat) -> Option<nat> {
    if '0' <= c <= '9' {
        Some((c as nat - 48) as nat)
    } else if radix == 16 && 'a' <= c <= 'f' {
        Some((c as nat - 87) as nat)
    } else if radix == 16 && 'A' <= c <= 'F' {
        Some((c as nat - 55) as nat)
    } else {
        None
    }
}

/// Reads the digits left to right; the first non-digit, or the first digit
/// that takes the value above `max`, decides the failure.
pub open spec fn accumulate(ds: Seq<char>, radix: nat, max: nat) -> Result<nat, IntErrorKind>
    decreases ds.len(),
{
    if ds.len() == 0 {
        Ok(0)
    } else {
        match accumulate(ds.drop_last(), radix, max) {
            Err(k) => Err(k),
            Ok(v) => match digit_value(ds.last(), radix) {
                None => Err(IntErrorKind::InvalidDigit),
                Some(x) => if v * radix + x > max {
                    Err(IntErrorKind::PosOverflow)
                } else {
                    Ok(v * radix + x)
                },
            },
        }
    }
}

/// Parsing of an unsigned integer no larger than `max` in base `radix`:
/// an optional leading `+`, then at least one digit.
pub open spec fn parse_uint(s: Seq<char>, radix: nat, max: nat) -> Result<nat, IntErrorKind> {
    if s.len() == 0 {
        Err(IntErrorKind::Empty)
    } else if s.len() == 1 && (s[0] == '+' || s[0] == '-') {
        Err(IntErrorKind::InvalidDigit)
    } else if s[0] == '+' {
        accumulate(s.drop_first(), radix, max)
    } else {
        accumulate(s, radix, max)
    }
}

fn digit_value_exec(c: char, radix: u64) -> (r: Option<u64>)
    requires
        radix == 10 || radix == 16,
    ensures
        r matches Some(x) ==> digit_value(c, radix as nat) == Some(x as nat) && x < radix,
        r is None ==> digit_value(c, radix as nat) is None,
{
    if '0' <= c && c <= '9' {
        Some(c as u64 - 48)
    } else if radix == 16 && 'a' <= c && c <= 'f' {
        Some(c as u64 - 87)
    } else if radix == 16 && 'A' <= c && c <= 'F' {
        Some(c as u64 - 55)
    } else {
        None
    }
}


fn accumulate_exec(v: &Vec<char>, from: usize, radix: u64, max: u64) -> (r: Result<u64, IntErrorKind>)
    requires
        from <= v@.len(),
        radix == 10 || radix == 16,
    ensures
        match accumulate(v@.subrange(from as int, v@.len() as int), radix as nat, max as nat) {
            Ok(x) => r == Ok::<u64, IntErrorKind>(x as u64) && x <= max,
            Err(k) => r == Err::<u64, IntErrorKind>(k),
        },
{
    let mut acc: u64 = 0;
    let mut i = from;
    assert(v@.subrange(from as int, from as int) == Seq::<char>::empty());
    while i < v.len()
        invariant
            from <= i <= v@.len(),
            radix == 10 || radix == 16,
            accumulate(v@.subrange(from as int, i as int), radix as nat, max as nat) == Ok::<nat, IntErrorKind>(acc as nat),
            acc <= max,
        decreases v@.len() - i,
    {
        let ghost ds = v@.subrange(from as int, i + 1);
        assert(ds.drop_last() == v@.subrange(from as int, i as int));
        assert(ds.last() == v@[i as int]);
        match digit_value_exec(v[i], radix) {
            None => {
                assert(accumulate(ds, radix as nat, max as nat) == Err::<nat, IntErrorKind>(IntErrorKind::InvalidDigit));
                proof { lemma_accumulate_rest_err(v@, from as int, i + 1, radix as nat, max as nat); }
                return Err(IntErrorKind::InvalidDigit);
            },
            Some(x) => {
                let wide: u128 = (acc as u128) * (radix as u128) + (x as u128);
                assert(wide == acc * radix + x) by (nonlinear_arith)
                    requires acc <= u64::MAX, radix <= 16, x < 16, wide == (acc as u128) * (radix as u128) + (x as u128);
                if wide > max as u128 {
                    assert(accumulate(ds, radix as nat, max as nat) == Err::<nat, IntErrorKind>(IntErrorKind::PosOverflow));
                    proof { lemma_accumulate_rest_err(v@, from as int, i + 1, radix as nat, max as nat); }
                    return Err(IntErrorKind::PosOverflow);
                }
                acc = wide as u64;
            },
        }
        i = i + 1;
    }
    Ok(acc)
}

/// Once a prefix of the digits fails, every longer prefix fails the same way.
proof fn lemma_accumulate_rest_err(v: Seq<char>, from: int, i: int, radix: nat, max: nat)
    requires
        0 <= from <= i <= v.len(),
        accumulate(v.subrange(from, i), radix, max) is Err,
    ensures
        accumulate(v.subrange(from, v.len() as int), radix, max) == accumulate(v.subrange(from, i), radix, max),
    decreases v.len() - i,
{
    if i < v.len() {
        assert(v.subrange(from, i + 1).drop_last() == v.subrange(from, i));
        lemma_accumulate_rest_err(v, from, i + 1, radix, max);
    }
}

/// Parses the characters of `v` as an unsigned integer in base `radix`, at most `max`.
pub fn parse_uint_chars(v: &Vec<char>, radix: u64, max: u64) -> (r: Result<u64, IntErrorKind>)
    requires
        radix == 10 || radix == 16,
    ensures
        match parse_uint(v@, radix as nat, max as nat) {
            Ok(x) => r == Ok::<u64, IntErrorKind>(x as u64),
            Err(k) => r == Err::<u64, IntErrorKind>(k),
        },
{
    assert(v@.subrange(0, v@.len() as int) == v@);
    if v.len() == 0 {
        Err(IntErrorKind::Empty)
    } else if v.len() == 1 && (v[0] == '+' || v[0] == '-') {
        Err(IntErrorKind::InvalidDigit)
    } else if v[0] == '+' {
        assert(v@.subrange(1, v@.len() as int) == v@.drop_first());
        accumulate_exec(v, 1, radix, max)
    } else {
        accumulate_exec(v, 0, radix, max)
    }
}


proof fn lemma_digit_value(d: nat, radix: nat)
    requires
        radix == 10 || radix == 16,
        d < radix,
    ensures
        digit_value(digit_of(d), radix) == Some(d),
{
}

proof fn lemma_accumulate_digits(n: nat, radix: nat, max: nat)
    requires
        radix == 10 || radix == 16,
        n <= max,
    ensures
        accumulate(if radix == 10 { dec(n) } else { hex(n) }, radix, max) == Ok::<nat, IntErrorKind>(n),
    decreases n,
{
    let s = if radix == 10 { dec(n) } else { hex(n) };
    if n < radix {
        lemma_digit_value(n, radix);
        assert(s == seq![digit_of(n)]);
        assert(s.drop_last() == Seq::<char>::empty());
        assert(accumulate(s.drop_last(), radix, max) == Ok::<nat, IntErrorKind>(0));
        assert(s.last() == digit_of(n));
    } else {
        let q = n / radix;
        let r = n % radix;
        assert(q * radix + r == n) by (nonlinear_arith)
            requires radix > 0, q == n / radix, r == n % radix;
        assert(q <= n) by (nonlinear_arith)
            requires radix > 0, q == n / radix;
        assert(q < n) by (nonlinear_arith)
            requires radix > 1, q == n / radix, n >= radix;
        lemma_accumulate_digits(q, radix, max);
        lemma_digit_value(r, radix);
        let p = if radix == 10 { dec(q) } else { hex(q) };
        assert(s == p.push(digit_of(r)));
        assert(s.drop_last() == p);
        assert(s.last() == digit_of(r));
        assert(q * radix + r <= max);
    }
}

proof fn lemma_digits_start(n: nat, radix: nat)
    requires
        radix == 10 || radix == 16,
    ensures
        (if radix == 10 { dec(n) } else { hex(n) }).len() >= 1,
        ('0' <= (if radix == 10 { dec(n) } else { hex(n) })[0] <= '9')
            || ('A' <= (if radix == 10 { dec(n) } else { hex(n) })[0] <= 'F'),
    decreases n,
{
    if n >= radix {
        assert(n / radix < n) by (nonlinear_arith)
            requires radix > 1, n >= radix;
        lemma_digits_start(n / radix, radix);
    }
}

/// Reading the decimal rendering of a number gives the number back.
pub(crate) proof fn lemma_parse_dec(n: nat, max: nat)
    requires
        n <= max,
    ensures
        parse_uint(dec(n), 10, max) == Ok::<nat, IntErrorKind>(n),
{
    lemma_accumulate_digits(n, 10, max);
    lemma_digits_start(n, 10);
}


} // verus!
