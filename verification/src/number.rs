//! Unsigned integer parsing with the semantics of `str::parse` and
//! `from_str_radix` for unsigned types, and decimal formatting.

use vstd::prelude::*;
use crate::text::push_char;

verus! {

/// Why a string is not an unsigned integer (`std::num::IntErrorKind`).
#[derive(PartialEq, Eq, Structural, Clone, Copy, Debug)]
pub enum IntErrorKind {
    Empty,
    InvalidDigit,
    PosOverflow,
}

/// The value of `c` as a digit in `radix`, as `char::to_digit` gives it.
pub open spec fn digit_value(c: char, radix: nat) -> Option<nat> {
    let v: int = if '0' <= c && c <= '9' {
        c as int - '0' as int
    } else if 'a' <= c && c <= 'z' {
        c as int - 'a' as int + 10
    } else if 'A' <= c && c <= 'Z' {
        c as int - 'A' as int + 10
    } else {
        -1
    };
    if 0 <= v && v < radix {
        Some(v as nat)
    } else {
        None
    }
}

/// Scans `s` left to right from the accumulated value `acc`, as the standard
/// library does: the first character that is not a digit, or the first digit
/// after which the value exceeds `max`, decides the error.
pub open spec fn scan_digits(s: Seq<char>, radix: nat, max: nat, acc: nat) -> Result<nat, IntErrorKind>
    decreases s.len(),
{
    if s.len() == 0 {
        Ok(acc)
    } else {
        match digit_value(s[0], radix) {
            None => Err(IntErrorKind::InvalidDigit),
            Some(d) => if acc * radix + d > max {
                Err(IntErrorKind::PosOverflow)
            } else {
                scan_digits(s.drop_first(), radix, max, acc * radix + d)
            },
        }
    }
}

/// What `from_str_radix(s, radix)` gives for an unsigned type whose largest
/// value is `max`: an empty string is `Empty`, one leading `+` is allowed, and
/// a lone sign is an invalid digit.
pub open spec fn parse_uint(s: Seq<char>, radix: nat, max: nat) -> Result<nat, IntErrorKind> {
    if s.len() == 0 {
        Err(IntErrorKind::Empty)
    } else if (s[0] == '+' || s[0] == '-') && s.len() == 1 {
        Err(IntErrorKind::InvalidDigit)
    } else if s[0] == '+' {
        scan_digits(s.drop_first(), radix, max, 0)
    } else {
        scan_digits(s, radix, max, 0)
    }
}

pub open spec fn u32_max() -> nat {
    0xffff_ffff
}

pub open spec fn u128_max() -> nat {
    0xffff_ffff_ffff_ffff_ffff_ffff_ffff_ffff
}

pub open spec fn usize_max() -> nat {
    usize::MAX as nat
}

pub proof fn lemma_scan_bounded(s: Seq<char>, radix: nat, max: nat, acc: nat)
    requires
        acc <= max,
    ensures
        scan_digits(s, radix, max, acc) matches Ok(v) ==> v <= max,
    decreases s.len(),
{
    if s.len() > 0 {
        if let Some(d) = digit_value(s[0], radix) {
            if acc * radix + d <= max {
                lemma_scan_bounded(s.drop_first(), radix, max, acc * radix + d);
            }
        }
    }
}

pub proof fn lemma_parse_bounded(s: Seq<char>, radix: nat, max: nat)
    ensures
        parse_uint(s, radix, max) matches Ok(v) ==> v <= max,
{
    if s.len() > 0 {
        lemma_scan_bounded(s.drop_first(), radix, max, 0);
        lemma_scan_bounded(s, radix, max, 0);
    }
}

fn char_digit(c: char, radix: u32) -> (r: Option<u32>)
    requires
        2 <= radix <= 36,
    ensures
        r matches Some(d) ==> digit_value(c, radix as nat) == Some(d as nat),
        r is None ==> digit_value(c, radix as nat) is None,
{
    let v: u32 = if '0' <= c && c <= '9' {
        (c as u32) - ('0' as u32)
    } else if 'a' <= c && c <= 'z' {
        (c as u32) - ('a' as u32) + 10
    } else if 'A' <= c && c <= 'Z' {
        (c as u32) - ('A' as u32) + 10
    } else {
        radix
    };
    if v < radix {
        Some(v)
    } else {
        None
    }
}

/// Parses `v[start..]` as an unsigned number in `radix` no larger than `max`.
pub fn parse_uint_chars(v: &Vec<char>, radix: u32, max: u128) -> (r: Result<u128, IntErrorKind>)
    requires
        2 <= radix <= 36,
    ensures
        match r {
            Ok(n) => parse_uint(v@, radix as nat, max as nat) == Ok::<nat, IntErrorKind>(n as nat),
            Err(k) => parse_uint(v@, radix as nat, max as nat) == Err::<nat, IntErrorKind>(k),
        },
{
    let n = v.len();
    if n == 0 {
        return Err(IntErrorKind::Empty);
    }
    if (v[0] == '+' || v[0] == '-') && n == 1 {
        return Err(IntErrorKind::InvalidDigit);
    }
    let mut i: usize = if v[0] == '+' {
        1
    } else {
        0
    };
    let ghost digits = if v@[0] == '+' {
        v@.drop_first()
    } else {
        v@
    };
    assert(digits =~= v@.subrange(i as int, n as int));
    assert(parse_uint(v@, radix as nat, max as nat) == scan_digits(digits, radix as nat, max as nat, 0));
    let mut acc: u128 = 0;
    while i < n
        invariant
            i <= n,
            n == v.len(),
            2 <= radix <= 36,
            acc <= max,
            parse_uint(v@, radix as nat, max as nat) == scan_digits(digits, radix as nat, max as nat, 0),
            scan_digits(digits, radix as nat, max as nat, 0) == scan_digits(
                v@.subrange(i as int, n as int),
                radix as nat,
                max as nat,
                acc as nat,
            ),
        decreases n - i,
    {
        let ghost rest = v@.subrange(i as int, n as int);
        assert(rest[0] == v@[i as int]);
        assert(rest.drop_first() =~= v@.subrange(i + 1, n as int));
        match char_digit(v[i], radix) {
            None => {
                return Err(IntErrorKind::InvalidDigit);
            },
            Some(d) => {
                let m = acc.checked_mul(radix as u128);
                match m {
                    None => {
                        assert(acc * radix + d > max) by (nonlinear_arith)
                            requires
                                acc * radix > u128::MAX,
                                max <= u128::MAX,
                        ;
                        return Err(IntErrorKind::PosOverflow);
                    },
                    Some(m) => {
                        let s = m.checked_add(d as u128);
                        match s {
                            None => {
                                return Err(IntErrorKind::PosOverflow);
                            },
                            Some(s) => {
                                if s > max {
                                    return Err(IntErrorKind::PosOverflow);
                                }
                                acc = s;
                            },
                        }
                    },
                }
            },
        }
        i = i + 1;
    }
    assert(v@.subrange(n as int, n as int).len() == 0);
    Ok(acc)
}

/// The text of a `ParseIntError` of each kind, as its `Display` shows it.
pub open spec fn int_error_text(k: IntErrorKind) -> Seq<char> {
    match k {
        IntErrorKind::Empty => "cannot parse integer from empty string"@,
        IntErrorKind::InvalidDigit => "invalid digit found in string"@,
        IntErrorKind::PosOverflow => "number too large to fit in target type"@,
    }
}

pub fn int_error_string(k: IntErrorKind) -> (r: String)
    ensures
        r@ == int_error_text(k),
{
    match k {
        IntErrorKind::Empty => String::from_str("cannot parse integer from empty string"),
        IntErrorKind::InvalidDigit => String::from_str("invalid digit found in string"),
        IntErrorKind::PosOverflow => String::from_str("number too large to fit in target type"),
    }
}

/// The decimal digit character for `d < 10`.
pub open spec fn digit_char(d: nat) -> char {
    (('0' as int) + d) as char
}

/// The decimal representation of `n`, without leading zeros.
pub open spec fn dec(n: nat) -> Seq<char>
    decreases n,
{
    if n < 10 {
        seq![digit_char(n)]
    } else {
        dec(n / 10).push(digit_char(n % 10))
    }
}

proof fn lemma_digit_char(d: nat)
    requires
        d < 10,
    ensures
        digit_value(digit_char(d), 10) == Some(d),
        '0' <= digit_char(d) <= '9',
{
}

proof fn lemma_scan_append(a: Seq<char>, b: Seq<char>, radix: nat, max: nat, acc: nat)
    ensures
        scan_digits(a + b, radix, max, acc) == match scan_digits(a, radix, max, acc) {
            Ok(v) => scan_digits(b, radix, max, v),
            Err(e) => Err(e),
        },
    decreases a.len(),
{
    if a.len() > 0 {
        assert((a + b)[0] == a[0]);
        assert((a + b).drop_first() =~= a.drop_first() + b);
        if let Some(d) = digit_value(a[0], radix) {
            if acc * radix + d <= max {
                lemma_scan_append(a.drop_first(), b, radix, max, acc * radix + d);
            }
        }
    } else {
        assert(a + b =~= b);
    }
}

/// The decimal text of a number is a run of digits that reads back as the
/// number.
pub proof fn lemma_dec_digits(n: nat)
    ensures
        dec(n).len() > 0,
        forall|j: int| 0 <= j < dec(n).len() ==> '0' <= #[trigger] dec(n)[j] <= '9',
    decreases n,
{
    if n >= 10 {
        lemma_dec_digits(n / 10);
    }
}

/// The decimal text of `n` parses back as `n` in any type that holds it.
pub proof fn lemma_parse_dec(n: nat, max: nat)
    requires
        n <= max,
    ensures
        parse_uint(dec(n), 10, max) == Ok::<nat, IntErrorKind>(n),
    decreases n,
{
    lemma_dec_digits(n);
    if n < 10 {
        lemma_digit_char(n);
        assert(dec(n).drop_first() =~= Seq::<char>::empty());
        assert(scan_digits(Seq::<char>::empty(), 10, max, n) == Ok::<nat, IntErrorKind>(n));
        assert(scan_digits(dec(n), 10, max, 0) == Ok::<nat, IntErrorKind>(n));
    } else {
        lemma_parse_dec(n / 10, max);
        lemma_dec_digits(n / 10);
        let c = digit_char(n % 10);
        lemma_digit_char(n % 10);
        assert(dec(n) =~= dec(n / 10) + seq![c]);
        lemma_scan_append(dec(n / 10), seq![c], 10, max, 0);
        assert((n / 10) * 10 + n % 10 == n) by (nonlinear_arith);
        assert(seq![c].drop_first() =~= Seq::<char>::empty());
        assert(scan_digits(dec(n / 10), 10, max, 0) == Ok::<nat, IntErrorKind>(n / 10));
        assert(scan_digits(Seq::<char>::empty(), 10, max, n) == Ok::<nat, IntErrorKind>(n));
        assert(scan_digits(seq![c], 10, max, n / 10) == Ok::<nat, IntErrorKind>(n));
        assert(scan_digits(dec(n), 10, max, 0) == Ok::<nat, IntErrorKind>(n));
        assert(dec(n)[0] != '+' && dec(n)[0] != '-');
    }
}

/// The hexadecimal digit character for `d < 16`, in lower or upper case.
pub open spec fn hex_digit_char(d: nat, upper: bool) -> char {
    if d < 10 {
        (('0' as int) + d) as char
    } else if upper {
        (('A' as int) + d - 10) as char
    } else {
        (('a' as int) + d - 10) as char
    }
}

/// The hexadecimal representation of `n`, without leading zeros, as the
/// formats `{:x}` (lower case) and `{:X}` (upper case) write it.
pub open spec fn hex_text(n: nat, upper: bool) -> Seq<char>
    decreases n,
{
    if n < 16 {
        seq![hex_digit_char(n, upper)]
    } else {
        hex_text(n / 16, upper).push(hex_digit_char(n % 16, upper))
    }
}

pub open spec fn is_hex_digit(c: char) -> bool {
    ||| ('0' <= c && c <= '9')
    ||| ('a' <= c && c <= 'f')
    ||| ('A' <= c && c <= 'F')
}

proof fn lemma_hex_digit_char(d: nat, upper: bool)
    requires
        d < 16,
    ensures
        digit_value(hex_digit_char(d, upper), 16) == Some(d),
        is_hex_digit(hex_digit_char(d, upper)),
{
}

/// The hexadecimal text of a number is a run of hexadecimal digits.
pub proof fn lemma_hex_digits(n: nat, upper: bool)
    ensures
        hex_text(n, upper).len() > 0,
        forall|j: int| 0 <= j < hex_text(n, upper).len() ==> is_hex_digit(#[trigger] hex_text(n, upper)[j]),
    decreases n,
{
    if n < 16 {
        lemma_hex_digit_char(n, upper);
    } else {
        lemma_hex_digits(n / 16, upper);
        lemma_hex_digit_char(n % 16, upper);
    }
}

/// The hexadecimal text of `n` parses back as `n` in radix 16, in any type
/// that holds it.
pub proof fn lemma_parse_hex(n: nat, upper: bool, max: nat)
    requires
        n <= max,
    ensures
        parse_uint(hex_text(n, upper), 16, max) == Ok::<nat, IntErrorKind>(n),
    decreases n,
{
    lemma_hex_digits(n, upper);
    if n < 16 {
        lemma_hex_digit_char(n, upper);
        assert(hex_text(n, upper).drop_first() =~= Seq::<char>::empty());
        assert(scan_digits(Seq::<char>::empty(), 16, max, n) == Ok::<nat, IntErrorKind>(n));
        assert(scan_digits(hex_text(n, upper), 16, max, 0) == Ok::<nat, IntErrorKind>(n));
    } else {
        lemma_parse_hex(n / 16, upper, max);
        lemma_hex_digits(n / 16, upper);
        let c = hex_digit_char(n % 16, upper);
        lemma_hex_digit_char(n % 16, upper);
        assert(hex_text(n, upper) =~= hex_text(n / 16, upper) + seq![c]);
        lemma_scan_append(hex_text(n / 16, upper), seq![c], 16, max, 0);
        assert((n / 16) * 16 + n % 16 == n) by (nonlinear_arith);
        assert(seq![c].drop_first() =~= Seq::<char>::empty());
        assert(scan_digits(hex_text(n / 16, upper), 16, max, 0) == Ok::<nat, IntErrorKind>(n / 16));
        assert(scan_digits(Seq::<char>::empty(), 16, max, n) == Ok::<nat, IntErrorKind>(n));
        assert(scan_digits(seq![c], 16, max, n / 16) == Ok::<nat, IntErrorKind>(n));
        assert(scan_digits(hex_text(n, upper), 16, max, 0) == Ok::<nat, IntErrorKind>(n));
        assert(is_hex_digit(hex_text(n, upper)[0]));
    }
}

/// Appends the decimal representation of `n` to `s`.
pub fn push_dec(s: &mut String, n: u128)
    ensures
        final(s)@ == old(s)@ + dec(n as nat),
    decreases n,
{
    let ghost s0 = s@;
    if n >= 10 {
        push_dec(s, n / 10);
    }
    let d = (n % 10) as u32;
    let c = char_from_digit(d);
    push_char(s, c);
    assert(s@ =~= s0 + dec(n as nat));
}

fn char_from_digit(d: u32) -> (c: char)
    requires
        d < 10,
    ensures
        c == digit_char(d as nat),
{
    if d == 0 { '0' }
    else if d == 1 { '1' }
    else if d == 2 { '2' }
    else if d == 3 { '3' }
    else if d == 4 { '4' }
    else if d == 5 { '5' }
    else if d == 6 { '6' }
    else if d == 7 { '7' }
    else if d == 8 { '8' }
    else { '9' }
}

/// The decimal representation of `n` (`n.to_string()`).
pub fn dec_string(n: u128) -> (r: String)
    ensures
        r@ == dec(n as nat),
{
    let mut s = String::new();
    push_dec(&mut s, n);
    assert(s@ =~= dec(n as nat));
    s
}

} // verus!
