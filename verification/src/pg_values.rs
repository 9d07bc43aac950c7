//! The text of PostgreSQL values that the client reads from their binary
//! wire form: bytea, MAC addresses, bit strings, network addresses, money,
//! intervals and hstore.

use vstd::prelude::*;
use crate::text::{
    decimal, digit, digit_char, hex_digit, hex_digit_of, join_with, push_char, push_decimal,
    push_signed_decimal, signed_decimal, views_of,
};

verus! {

// ------------------------------------------------------------------
// Reading integers
// ------------------------------------------------------------------

/// The unsigned big-endian value of the four bytes at `at`.
pub open spec fn be32(b: Seq<u8>, at: int) -> int {
    b[at] * 16777216 + b[at + 1] * 65536 + b[at + 2] * 256 + b[at + 3]
}

/// The signed big-endian (two's complement) value of the four bytes at `at`.
pub open spec fn be_i32(b: Seq<u8>, at: int) -> int {
    if be32(b, at) >= 2147483648 {
        be32(b, at) - 4294967296
    } else {
        be32(b, at)
    }
}

/// The signed big-endian (two's complement) value of the eight bytes at `at`.
pub open spec fn be_i64(b: Seq<u8>, at: int) -> int {
    let u = be32(b, at) * 4294967296 + be32(b, at + 4);
    if u >= 9223372036854775808 {
        u - 18446744073709551616
    } else {
        u
    }
}

fn read_u32(b: &Vec<u8>, at: usize) -> (r: u32)
    requires
        at + 4 <= b@.len(),
    ensures
        r == be32(b@, at as int),
{
    let _len = b.len();
    (b[at] as u32) * 16777216 + (b[at + 1] as u32) * 65536 + (b[at + 2] as u32) * 256 + (b[at + 3] as u32)
}

fn read_i32(b: &Vec<u8>, at: usize) -> (r: i32)
    requires
        at + 4 <= b@.len(),
    ensures
        r == be_i32(b@, at as int),
{
    let u = read_u32(b, at);
    if u >= 2147483648 {
        ((u as i64) - 4294967296) as i32
    } else {
        u as i32
    }
}

fn read_i64(b: &Vec<u8>, at: usize) -> (r: i64)
    requires
        at + 8 <= b@.len(),
    ensures
        r == be_i64(b@, at as int),
{
    let _len = b.len();
    let hi = read_u32(b, at) as u64;
    let lo = read_u32(b, at + 4) as u64;
    assert(hi * 4294967296 + lo <= 18446744073709551615) by (nonlinear_arith)
        requires
            hi <= 4294967295,
            lo <= 4294967295,
    ;
    let u: u64 = hi * 4294967296 + lo;
    if u >= 9223372036854775808 {
        ((u as i128) - 18446744073709551616) as i64
    } else {
        u as i64
    }
}

// ------------------------------------------------------------------
// bytea and MAC addresses
// ------------------------------------------------------------------

/// A byte as two lower-case hexadecimal digits.
pub open spec fn hex_pair(b: u8) -> Seq<char> {
    seq![hex_digit((b / 16) as int), hex_digit((b % 16) as int)]
}

/// The bytes as lower-case hexadecimal, two digits each.
pub open spec fn hex_bytes(s: Seq<u8>) -> Seq<char>
    decreases s.len(),
{
    if s.len() == 0 {
        Seq::empty()
    } else {
        hex_bytes(s.drop_last()) + hex_pair(s.last())
    }
}

/// A bytea value in PostgreSQL's hex output form: `\x` and the bytes in
/// hexadecimal.
pub open spec fn bytea_text(s: Seq<u8>) -> Seq<char> {
    seq!['\\', 'x'] + hex_bytes(s)
}

fn push_hex_pair(out: &mut String, b: u8)
    ensures
        final(out)@ == old(out)@ + hex_pair(b),
{
    push_char(out, hex_digit_of(b / 16));
    push_char(out, hex_digit_of(b % 16));
}

pub fn bytea_to_text(bytes: &Vec<u8>) -> (r: String)
    ensures
        r@ == bytea_text(bytes@),
{
    let mut out = String::new();
    push_char(&mut out, '\\');
    push_char(&mut out, 'x');
    let n = bytes.len();
    for i in 0..n
        invariant
            n == bytes@.len(),
            out@ == seq!['\\', 'x'] + hex_bytes(bytes@.take(i as int)),
    {
        push_hex_pair(&mut out, bytes[i]);
        assert(bytes@.take(i + 1).drop_last() =~= bytes@.take(i as int));
    }
    assert(bytes@.take(n as int) =~= bytes@);
    out
}

/// A MAC address (six bytes, or eight for `macaddr8`) as PostgreSQL writes
/// it: the bytes in hexadecimal separated by colons; any other length is
/// not an address.
pub open spec fn macaddr_text(s: Seq<u8>) -> Option<Seq<char>> {
    if s.len() == 6 || s.len() == 8 {
        Some(join_with(s.map_values(|b: u8| hex_pair(b)), seq![':']))
    } else {
        None
    }
}

pub fn macaddr_to_text(bytes: &Vec<u8>) -> (r: Option<String>)
    ensures
        match r {
            Some(t) => macaddr_text(bytes@) == Some(t@),
            None => macaddr_text(bytes@) is None,
        },
{
    let n = bytes.len();
    if n != 6 && n != 8 {
        return None;
    }
    let mut parts: Vec<Vec<char>> = Vec::new();
    for i in 0..n
        invariant
            n == bytes@.len(),
            views_of(parts@) == bytes@.take(i as int).map_values(|b: u8| hex_pair(b)),
    {
        let b = bytes[i];
        let ghost before = parts@;
        parts.push(vec![hex_digit_of(b / 16), hex_digit_of(b % 16)]);
        assert(views_of(parts@) =~= views_of(before).push(hex_pair(b)));
        assert(bytes@.take(i + 1).map_values(|b: u8| hex_pair(b)) =~= bytes@.take(i as int).map_values(
            |b: u8| hex_pair(b),
        ).push(hex_pair(b)));
    }
    assert(bytes@.take(n as int) =~= bytes@);
    assert(views_of(parts@) == bytes@.map_values(|b: u8| hex_pair(b)));
    let mut out = String::new();
    let sep = vec![':'];
    assert(sep@ =~= seq![':']);
    crate::text::push_joined(&mut out, &parts, &sep);
    Some(out)
}

// ------------------------------------------------------------------
// Bit strings
// ------------------------------------------------------------------

/// Bit `i` of the data, the highest bit of each byte first, as `0` or `1`.
pub open spec fn bit_char(data: Seq<u8>, i: int) -> char {
    if (data[i / 8] >> ((7 - i % 8) as u8)) & 1u8 == 1u8 {
        '1'
    } else {
        '0'
    }
}

/// A `bit` or `varbit` value as PostgreSQL writes it: its bits as `0` and
/// `1`. The wire form is the bit count (four bytes, big-endian) and then the
/// bits, eight to a byte; a form too short for its count is not a value.
pub open spec fn bit_string_text(s: Seq<u8>) -> Option<Seq<char>> {
    if s.len() < 4 {
        None
    } else if be_i32(s, 0) < 0 || s.len() - 4 < (be_i32(s, 0) + 7) / 8 {
        None
    } else {
        Some(Seq::new(be_i32(s, 0) as nat, |i: int| bit_char(s.skip(4), i)))
    }
}

pub fn bit_string_to_text(bytes: &Vec<u8>) -> (r: Option<String>)
    ensures
        match r {
            Some(t) => bit_string_text(bytes@) == Some(t@),
            None => bit_string_text(bytes@) is None,
        },
{
    if bytes.len() < 4 {
        return None;
    }
    let count = read_i32(bytes, 0);
    if count < 0 {
        return None;
    }
    let n = count as usize;
    if bytes.len() - 4 < (n + 7) / 8 {
        return None;
    }
    let ghost data = bytes@.skip(4);
    let mut out = String::new();
    let mut i: usize = 0;
    while i < n
        invariant
            i <= n,
            n == be_i32(bytes@, 0),
            bytes@.len() - 4 >= (n + 7) / 8,
            data == bytes@.skip(4),
            out@ == Seq::new(i as nat, |k: int| bit_char(data, k)),
        decreases n - i,
    {
        let byte_at = 4 + i / 8;
        assert(i / 8 < (n + 7) / 8);
        let b = bytes[byte_at];
        assert(data[(i / 8) as int] == b);
        let shift: u8 = (7 - i % 8) as u8;
        let c = if (b >> shift) & 1u8 == 1u8 {
            '1'
        } else {
            '0'
        };
        assert(c == bit_char(data, i as int));
        push_char(&mut out, c);
        assert(out@ =~= Seq::new((i + 1) as nat, |k: int| bit_char(data, k)));
        i = i + 1;
    }
    Some(out)
}


// ------------------------------------------------------------------
// Network addresses
// ------------------------------------------------------------------

/// An `inet` or `cidr` value: the address bytes (four for IPv4, sixteen for
/// IPv6), the prefix length, and whether the prefix is written (always for
/// `cidr`; for `inet` only when it is shorter than the address).
#[derive(Debug, Clone)]
pub struct InetValue {
    pub is_v6: bool,
    pub address: Vec<u8>,
    pub bits: u8,
    pub show_prefix: bool,
}

/// The wire form of `inet` and `cidr`: family (2 for IPv4, 3 for IPv6),
/// prefix length, whether it is a `cidr`, address length, address.
pub open spec fn inet_form(s: Seq<u8>) -> bool {
    &&& s.len() >= 4
    &&& ((s[0] == 2 && s[3] == 4 && s.len() == 8) || (s[0] == 3 && s[3] == 16 && s.len() == 20))
}

pub fn inet_parts(bytes: &Vec<u8>) -> (r: Option<InetValue>)
    ensures
        r is Some <==> inet_form(bytes@),
        r matches Some(v) ==> {
            &&& v.is_v6 == (bytes@[0] == 3)
            &&& v.address@ == bytes@.skip(4)
            &&& v.bits == bytes@[1]
            &&& v.show_prefix == (bytes@[2] != 0 || bytes@[1] != (if v.is_v6 { 128u8 } else { 32u8 }))
        },
{
    let n = bytes.len();
    if n < 4 {
        return None;
    }
    let family = bytes[0];
    let size = bytes[3];
    let is_v6 = if family == 2 && size == 4 && n == 8 {
        false
    } else if family == 3 && size == 16 && n == 20 {
        true
    } else {
        return None;
    };
    let mut address: Vec<u8> = Vec::new();
    for i in 4..n
        invariant
            n == bytes@.len(),
            address@ == bytes@.subrange(4, i as int),
    {
        address.push(bytes[i]);
        assert(address@ =~= bytes@.subrange(4, i + 1));
    }
    assert(bytes@.subrange(4, n as int) =~= bytes@.skip(4));
    let bits = bytes[1];
    let full: u8 = if is_v6 {
        128
    } else {
        32
    };
    Some(InetValue { is_v6, address, bits, show_prefix: bytes[2] != 0 || bits != full })
}

/// An IPv4 address in dotted decimal.
pub open spec fn ipv4_text(a: Seq<u8>) -> Seq<char> {
    join_with(a.map_values(|b: u8| decimal(b as nat)), seq!['.'])
}

pub fn ipv4_to_text(address: &Vec<u8>) -> (r: String)
    ensures
        r@ == ipv4_text(address@),
{
    let mut parts: Vec<Vec<char>> = Vec::new();
    let n = address.len();
    for i in 0..n
        invariant
            n == address@.len(),
            views_of(parts@) == address@.take(i as int).map_values(|b: u8| decimal(b as nat)),
    {
        let mut t = String::new();
        push_decimal(&mut t, address[i] as u64);
        let ghost before = parts@;
        parts.push(crate::text::chars_of(t.as_str()));
        assert(views_of(parts@) =~= views_of(before).push(decimal(address@[i as int] as nat)));
        assert(address@.take(i + 1).map_values(|b: u8| decimal(b as nat)) =~= address@.take(i as int).map_values(
            |b: u8| decimal(b as nat),
        ).push(decimal(address@[i as int] as nat)));
    }
    assert(address@.take(n as int) =~= address@);
    assert(views_of(parts@) == address@.map_values(|b: u8| decimal(b as nat)));
    let mut out = String::new();
    let sep = vec!['.'];
    assert(sep@ =~= seq!['.']);
    crate::text::push_joined(&mut out, &parts, &sep);
    out
}

/// The prefix written after an address: `/` and the prefix length, when it
/// is written.
pub open spec fn prefix_text(v: InetValue) -> Seq<char> {
    if v.show_prefix {
        seq!['/'] + decimal(v.bits as nat)
    } else {
        Seq::empty()
    }
}

pub fn prefix_to_text(v: &InetValue) -> (r: String)
    ensures
        r@ == prefix_text(*v),
{
    let mut out = String::new();
    if v.show_prefix {
        push_char(&mut out, '/');
        push_decimal(&mut out, v.bits as u64);
    }
    out
}

// ------------------------------------------------------------------
// Money
// ------------------------------------------------------------------

pub open spec fn abs_int(a: int) -> nat {
    if a < 0 {
        (-a) as nat
    } else {
        a as nat
    }
}

/// Three decimal digits, with leading zeros.
pub open spec fn three_digits(n: nat) -> Seq<char> {
    seq![digit_char((n / 100) as int), digit_char((n / 10 % 10) as int), digit_char((n % 10) as int)]
}

/// A whole number with a comma between groups of three digits.
pub open spec fn grouped(n: nat) -> Seq<char>
    decreases n,
{
    if n < 1000 {
        decimal(n)
    } else {
        grouped(n / 1000) + seq![','] + three_digits(n % 1000)
    }
}

/// An amount of money in cents as PostgreSQL writes it under the C locale:
/// a minus sign when negative, `$`, the whole amount with comma groups, a
/// point and two digits of cents.
pub open spec fn money_text(cents: int) -> Seq<char> {
    let a = abs_int(cents);
    (if cents < 0 {
        seq!['-']
    } else {
        Seq::empty()
    }) + seq!['$'] + grouped(a / 100) + seq!['.', digit_char((a % 100 / 10) as int), digit_char((a % 10) as int)]
}

fn push_grouped(out: &mut String, n: u64)
    ensures
        final(out)@ == old(out)@ + grouped(n as nat),
    decreases n,
{
    if n < 1000 {
        push_decimal(out, n);
    } else {
        push_grouped(out, n / 1000);
        let r = n % 1000;
        push_char(out, ',');
        push_char(out, digit(r / 100));
        push_char(out, digit(r / 10 % 10));
        push_char(out, digit(r % 10));
        assert(final(out)@ =~= old(out)@ + grouped(n as nat));
    }
}

/// A `money` value (eight bytes, the amount in cents) as text; any other
/// length is not a value.
pub fn money_to_text(bytes: &Vec<u8>) -> (r: Option<String>)
    ensures
        bytes@.len() == 8 ==> (r matches Some(t) && t@ == money_text(be_i64(bytes@, 0))),
        bytes@.len() != 8 ==> r is None,
{
    if bytes.len() != 8 {
        return None;
    }
    let cents = read_i64(bytes, 0) as i128;
    let a: u64 = if cents < 0 {
        (-cents) as u64
    } else {
        cents as u64
    };
    let mut out = String::new();
    if cents < 0 {
        push_char(&mut out, '-');
    }
    push_char(&mut out, '$');
    push_grouped(&mut out, a / 100);
    push_char(&mut out, '.');
    push_char(&mut out, digit(a % 100 / 10));
    push_char(&mut out, digit(a % 10));
    assert(out@ =~= money_text(be_i64(bytes@, 0)));
    Some(out)
}


// ------------------------------------------------------------------
// Intervals
// ------------------------------------------------------------------

/// Division truncated toward zero, as C divides (for a positive divisor).
pub open spec fn tdiv(a: int, d: int) -> int {
    if a >= 0 {
        a / d
    } else {
        -((-a) / d)
    }
}

/// The remainder of `tdiv`, with the sign of `a`.
pub open spec fn trem(a: int, d: int) -> int {
    a - d * tdiv(a, d)
}

/// One field of an interval (`N year`, `N mon`, `N day`, plural unless `N`
/// is 1) after the text so far: a space unless it is the first field, and a
/// `+` when an earlier field was negative and this one is positive.
pub open spec fn interval_field(value: int, unit: Seq<char>, is_zero: bool, is_before: bool) -> Seq<char> {
    (if is_zero {
        Seq::empty()
    } else {
        seq![' ']
    }) + (if is_before && value > 0 {
        seq!['+']
    } else {
        Seq::empty()
    }) + signed_decimal(value) + seq![' '] + unit + (if value != 1 {
        seq!['s']
    } else {
        Seq::empty()
    })
}

/// The text after one more field, with whether nothing has been written yet
/// and whether the last field written was negative.
pub open spec fn add_field(t: (Seq<char>, bool, bool), value: int, unit: Seq<char>) -> (Seq<char>, bool, bool) {
    if value == 0 {
        t
    } else {
        (t.0 + interval_field(value, unit, t.1, t.2), false, value < 0)
    }
}

/// A number with at least two digits.
pub open spec fn two_digits(n: nat) -> Seq<char> {
    if n < 10 {
        seq!['0'] + decimal(n)
    } else {
        decimal(n)
    }
}

/// The six digits of a count of microseconds below a second.
pub open spec fn six_digits(f: nat) -> Seq<char> {
    seq![
        digit_char((f / 100000 % 10) as int),
        digit_char((f / 10000 % 10) as int),
        digit_char((f / 1000 % 10) as int),
        digit_char((f / 100 % 10) as int),
        digit_char((f / 10 % 10) as int),
        digit_char((f % 10) as int),
    ]
}

/// The text without its trailing `0` characters.
pub open spec fn without_trailing_zeros(s: Seq<char>) -> Seq<char>
    decreases s.len(),
{
    if s.len() > 0 && s.last() == '0' {
        without_trailing_zeros(s.drop_last())
    } else {
        s
    }
}

/// The fraction of a second: nothing when zero, else a point and the
/// microseconds without trailing zeros.
pub open spec fn second_fraction(f: nat) -> Seq<char> {
    if f == 0 {
        Seq::empty()
    } else {
        seq!['.'] + without_trailing_zeros(six_digits(f))
    }
}

/// An interval as PostgreSQL writes it in its default `postgres` style: the
/// years, months and days that are not zero (`1 year 2 mons -3 days`), then
/// the time as `[-]HH:MM:SS[.ffffff]` when it is not zero or nothing else was
/// written; a field or time after a negative field carries a `+` when
/// positive.
pub open spec fn interval_text(micros: int, days: int, months: int) -> Seq<char> {
    let hour = tdiv(micros, 3600000000);
    let r1 = trem(micros, 3600000000);
    let min = tdiv(r1, 60000000);
    let r2 = trem(r1, 60000000);
    let sec = tdiv(r2, 1000000);
    let fsec = trem(r2, 1000000);
    let t = add_field(
        add_field(add_field((Seq::empty(), true, false), tdiv(months, 12), "year"@), trem(months, 12), "mon"@),
        days,
        "day"@,
    );
    interval_time(t, hour, min, sec, fsec)
}

/// The time part of an interval after the fields `t` (see `interval_text`).
pub open spec fn interval_time(t: (Seq<char>, bool, bool), hour: int, min: int, sec: int, fsec: int) -> Seq<char> {
    if t.1 || hour != 0 || min != 0 || sec != 0 || fsec != 0 {
        t.0 + (if t.1 {
            Seq::empty()
        } else {
            seq![' ']
        }) + (if hour < 0 || min < 0 || sec < 0 || fsec < 0 {
            seq!['-']
        } else if t.2 {
            seq!['+']
        } else {
            Seq::empty()
        }) + two_digits(abs_int(hour)) + seq![':'] + two_digits(abs_int(min)) + seq![':'] + two_digits(
            abs_int(sec),
        ) + second_fraction(abs_int(fsec))
    } else {
        t.0
    }
}

fn push_field(out: &mut String, state: (bool, bool), value: i32, unit: &str) -> (r: (bool, bool))
    ensures
        add_field((old(out)@, state.0, state.1), value as int, unit@) == (final(out)@, r.0, r.1),
{
    if value == 0 {
        return state;
    }
    if !state.0 {
        push_char(out, ' ');
    }
    if state.1 && value > 0 {
        push_char(out, '+');
    }
    push_signed_decimal(out, value);
    push_char(out, ' ');
    out.append(unit);
    if value != 1 {
        push_char(out, 's');
    }
    assert(final(out)@ =~= old(out)@ + interval_field(value as int, unit@, state.0, state.1));
    (false, value < 0)
}

fn push_two_digits(out: &mut String, n: u64)
    ensures
        final(out)@ == old(out)@ + two_digits(n as nat),
{
    if n < 10 {
        push_char(out, '0');
    }
    push_decimal(out, n);
    assert(final(out)@ =~= old(out)@ + two_digits(n as nat));
}

fn push_fraction(out: &mut String, f: u64)
    requires
        f < 1000000,
    ensures
        final(out)@ == old(out)@ + second_fraction(f as nat),
{
    if f == 0 {
        return;
    }
    let mut ds: Vec<char> = vec![
        digit(f / 100000 % 10),
        digit(f / 10000 % 10),
        digit(f / 1000 % 10),
        digit(f / 100 % 10),
        digit(f / 10 % 10),
        digit(f % 10),
    ];
    assert(ds@ =~= six_digits(f as nat));
    while ds.len() > 0 && ds[ds.len() - 1] == '0'
        invariant
            without_trailing_zeros(ds@) == without_trailing_zeros(six_digits(f as nat)),
        decreases ds.len(),
    {
        ds.pop();
    }
    assert(without_trailing_zeros(ds@) == ds@);
    push_char(out, '.');
    crate::text::push_chars(out, &ds);
    assert(final(out)@ =~= old(out)@ + second_fraction(f as nat));
}

/// The magnitude and sign of a truncated quotient and remainder.
fn split_div(a: i128, d: i128) -> (r: (i128, i128))
    requires
        0 < d <= 3600000000,
        -9223372036854775808 <= a <= 9223372036854775807,
    ensures
        r.0 == tdiv(a as int, d as int),
        r.1 == trem(a as int, d as int),
{
    let q: i128 = if a >= 0 {
        ((a as u128) / (d as u128)) as i128
    } else {
        -((((-a) as u128) / (d as u128)) as i128)
    };
    assert(-9223372036854775808 <= q <= 9223372036854775807) by (nonlinear_arith)
        requires
            0 < d,
            -9223372036854775808 <= a <= 9223372036854775807,
            a >= 0 ==> q == (a as int) / (d as int),
            a < 0 ==> q == -((-(a as int)) / (d as int)),
    ;
    assert(-9223372036854775808 <= a - d * q <= 9223372036854775807) by (nonlinear_arith)
        requires
            0 < d,
            -9223372036854775808 <= a <= 9223372036854775807,
            a >= 0 ==> q == (a as int) / (d as int),
            a < 0 ==> q == -((-(a as int)) / (d as int)),
    ;
    (q, a - d * q)
}

fn magnitude(a: i128) -> (r: u64)
    requires
        -18446744073709551615 <= a <= 18446744073709551615,
    ensures
        r == abs_int(a as int),
{
    if a < 0 {
        (-a) as u64
    } else {
        a as u64
    }
}

fn push_time(out: &mut String, st: (bool, bool), hour: i128, min: i128, sec: i128, fsec: i128)
    requires
        -9223372036854775808 <= hour <= 9223372036854775807,
        -60 < min < 60,
        -60 < sec < 60,
        -1000000 < fsec < 1000000,
    ensures
        final(out)@ == interval_time((old(out)@, st.0, st.1), hour as int, min as int, sec as int, fsec as int),
{
    if st.0 || hour != 0 || min != 0 || sec != 0 || fsec != 0 {
        let ghost base = old(out)@;
        let ghost lead: Seq<char> = if st.0 {
            Seq::empty()
        } else {
            seq![' ']
        };
        let ghost sign: Seq<char> = if hour < 0 || min < 0 || sec < 0 || fsec < 0 {
            seq!['-']
        } else if st.1 {
            seq!['+']
        } else {
            Seq::empty()
        };
        if !st.0 {
            push_char(out, ' ');
        }
        assert(out@ =~= base + lead);
        if hour < 0 || min < 0 || sec < 0 || fsec < 0 {
            push_char(out, '-');
        } else if st.1 {
            push_char(out, '+');
        }
        assert(out@ =~= base + lead + sign);
        let h = magnitude(hour);
        let m = magnitude(min);
        let sc = magnitude(sec);
        let f = magnitude(fsec);
        push_two_digits(out, h);
        push_char(out, ':');
        push_two_digits(out, m);
        push_char(out, ':');
        push_two_digits(out, sc);
        push_fraction(out, f);
        assert(out@ =~= base + lead + sign + two_digits(h as nat) + seq![':'] + two_digits(m as nat) + seq![':']
            + two_digits(sc as nat) + second_fraction(f as nat));
    }
}

/// An `interval` value (sixteen bytes: microseconds, days, months) as text;
/// any other length is not a value.
pub fn interval_to_text(bytes: &Vec<u8>) -> (r: Option<String>)
    ensures
        bytes@.len() == 16 ==> (r matches Some(t) && t@ == interval_text(
            be_i64(bytes@, 0),
            be_i32(bytes@, 8),
            be_i32(bytes@, 12),
        )),
        bytes@.len() != 16 ==> r is None,
{
    if bytes.len() != 16 {
        return None;
    }
    let micros = read_i64(bytes, 0) as i128;
    let days = read_i32(bytes, 8);
    let months = read_i32(bytes, 12);
    let (hour, r1) = split_div(micros, 3600000000);
    let (min, r2) = split_div(r1, 60000000);
    let (sec, fsec) = split_div(r2, 1000000);
    let (year, mon) = split_div(months as i128, 12);
    let mut out = String::new();
    let st = push_field(&mut out, (true, false), year as i32, "year");
    let st = push_field(&mut out, st, mon as i32, "mon");
    let st = push_field(&mut out, st, days, "day");
    push_time(&mut out, st, hour, min, sec, fsec);
    assert(out@ =~= interval_text(be_i64(bytes@, 0), be_i32(bytes@, 8), be_i32(bytes@, 12)));
    Some(out)
}


// ------------------------------------------------------------------
// hstore
// ------------------------------------------------------------------

/// One key and value of an `hstore` at `at`: the key length (four bytes)
/// and key, then the value length (four bytes, -1 for a null value) and
/// value; with the position after it. `None` where the bytes do not hold
/// one.
pub open spec fn hstore_entry_at(b: Seq<u8>, at: int) -> Option<(Seq<u8>, Option<Seq<u8>>, int)> {
    if at < 0 || at + 4 > b.len() {
        None
    } else {
        let kl = be_i32(b, at);
        let vp = at + 4 + kl;
        if kl < 0 || vp + 4 > b.len() {
            None
        } else {
            let vl = be_i32(b, vp);
            if vl == -1 {
                Some((b.subrange(at + 4, vp), None, vp + 4))
            } else if vl < 0 || vp + 4 + vl > b.len() {
                None
            } else {
                Some((b.subrange(at + 4, vp), Some(b.subrange(vp + 4, vp + 4 + vl)), vp + 4 + vl))
            }
        }
    }
}

/// The `count` entries from `at`, in order, or `None` where one is missing.
pub open spec fn hstore_entries(b: Seq<u8>, at: int, count: nat) -> Option<Seq<(Seq<u8>, Option<Seq<u8>>)>>
    decreases count,
{
    if count == 0 {
        Some(Seq::empty())
    } else {
        match hstore_entry_at(b, at) {
            None => None,
            Some(e) => match hstore_entries(b, e.2, (count - 1) as nat) {
                None => None,
                Some(rest) => Some(seq![(e.0, e.1)] + rest),
            },
        }
    }
}

/// The entries of an `hstore` value in its binary form: the entry count
/// (four bytes), then the entries.
pub open spec fn hstore_fields(b: Seq<u8>) -> Option<Seq<(Seq<u8>, Option<Seq<u8>>)>> {
    if b.len() < 4 || be_i32(b, 0) < 0 {
        None
    } else {
        hstore_entries(b, 4, be_i32(b, 0) as nat)
    }
}

pub open spec fn optional_bytes(v: Option<Vec<u8>>) -> Option<Seq<u8>> {
    match v {
        Some(x) => Some(x@),
        None => None,
    }
}

pub open spec fn entry_views(es: Seq<(Vec<u8>, Option<Vec<u8>>)>) -> Seq<(Seq<u8>, Option<Seq<u8>>)> {
    es.map_values(|e: (Vec<u8>, Option<Vec<u8>>)| (e.0@, optional_bytes(e.1)))
}

pub open spec fn prepend_entries(
    done: Seq<(Seq<u8>, Option<Seq<u8>>)>,
    rest: Option<Seq<(Seq<u8>, Option<Seq<u8>>)>>,
) -> Option<Seq<(Seq<u8>, Option<Seq<u8>>)>> {
    match rest {
        Some(r) => Some(done + r),
        None => None,
    }
}

fn copy_range(b: &Vec<u8>, from: usize, to: usize) -> (r: Vec<u8>)
    requires
        from <= to <= b@.len(),
    ensures
        r@ == b@.subrange(from as int, to as int),
{
    let mut out: Vec<u8> = Vec::new();
    for i in from..to
        invariant
            to <= b@.len(),
            out@ == b@.subrange(from as int, i as int),
    {
        out.push(b[i]);
        assert(out@ =~= b@.subrange(from as int, i + 1));
    }
    out
}

fn read_entry(b: &Vec<u8>, at: usize) -> (r: Option<(Vec<u8>, Option<Vec<u8>>, usize)>)
    ensures
        match r {
            Some(e) => hstore_entry_at(b@, at as int) == Some((e.0@, optional_bytes(e.1), e.2 as int)),
            None => hstore_entry_at(b@, at as int) is None,
        },
{
    let n = b.len();
    if at > n || n - at < 4 {
        return None;
    }
    let kl = read_i32(b, at);
    if kl < 0 || n - at - 4 < kl as usize || n - at - 4 - (kl as usize) < 4 {
        return None;
    }
    let vp = at + 4 + kl as usize;
    let key = copy_range(b, at + 4, vp);
    let vl = read_i32(b, vp);
    if vl == -1 {
        return Some((key, None, vp + 4));
    }
    if vl < 0 || n - vp - 4 < vl as usize {
        return None;
    }
    let end = vp + 4 + vl as usize;
    let value = copy_range(b, vp + 4, end);
    Some((key, Some(value), end))
}

/// The entries of an `hstore` value, from its binary form.
pub fn hstore_to_fields(bytes: &Vec<u8>) -> (r: Option<Vec<(Vec<u8>, Option<Vec<u8>>)>>)
    ensures
        match r {
            Some(es) => hstore_fields(bytes@) == Some(entry_views(es@)),
            None => hstore_fields(bytes@) is None,
        },
{
    if bytes.len() < 4 {
        return None;
    }
    let count = read_i32(bytes, 0);
    if count < 0 {
        return None;
    }
    let n = count as usize;
    let ghost total = hstore_fields(bytes@);
    let mut out: Vec<(Vec<u8>, Option<Vec<u8>>)> = Vec::new();
    let mut pos: usize = 4;
    let mut i: usize = 0;
    assert(entry_views(out@) =~= Seq::<(Seq<u8>, Option<Seq<u8>>)>::empty());
    assert(prepend_entries(entry_views(out@), hstore_entries(bytes@, 4, n as nat)) =~= hstore_entries(bytes@, 4, n as nat));
    while i < n
        invariant
            i <= n,
            n == be_i32(bytes@, 0),
            total == hstore_fields(bytes@),
            total == prepend_entries(entry_views(out@), hstore_entries(bytes@, pos as int, (n - i) as nat)),
        decreases n - i,
    {
        let ghost k = (n - i) as nat;
        match read_entry(bytes, pos) {
            None => {
                assert(hstore_entries(bytes@, pos as int, k) is None);
                return None;
            },
            Some(e) => {
                let ghost done = entry_views(out@);
                let ghost ev = (e.0@, optional_bytes(e.1));
                let ghost rest = hstore_entries(bytes@, e.2 as int, (k - 1) as nat);
                assert(hstore_entries(bytes@, pos as int, k) == match rest {
                    None => None,
                    Some(r) => Some(seq![ev] + r),
                });
                pos = e.2;
                out.push((e.0, e.1));
                assert(entry_views(out@) =~= done.push(ev));
                proof {
                    if rest is Some {
                        let r = rest->Some_0;
                        assert(done + (seq![ev] + r) =~= done.push(ev) + r);
                    }
                }
                i = i + 1;
            },
        }
    }
    assert(hstore_entries(bytes@, pos as int, 0) == Some(Seq::<(Seq<u8>, Option<Seq<u8>>)>::empty()));
    assert(entry_views(out@) + Seq::<(Seq<u8>, Option<Seq<u8>>)>::empty() =~= entry_views(out@));
    Some(out)
}

} // verus!
