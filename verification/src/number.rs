//! Decimal integers: parsing with the rules of `str::parse` for the integer
//! types, and decimal formatting.
use vstd::prelude::*;

use crate::text::{chars_of, chars_skip, is_ascii_digit, push_char};

verus! {

/// Why a decimal integer could not be read; the same kinds, in the same
/// cases, as `std::num::IntErrorKind`.
#[derive(Debug, Clone, Copy, PartialEq, Eq, Structural)]
pub enum IntErrorKind {
    Empty,
    InvalidDigit,
    PosOverflow,
    NegOverflow,
}

pub open spec fn digit_value(c: char) -> int {
    (c as u32) as int - 48
}

/// The character of a decimal digit `k < 10`.
pub open spec fn digit_char(k: int) -> char {
    ((k + 48) as u8) as char
}

/// Reads the digits left to right, stopping at the first character that is
/// not a digit or at the first step whose value leaves `[min, max]`.
pub open spec fn scan_digits(d: Seq<char>, negative: bool, min: int, max: int) -> Result<
    int,
    IntErrorKind,
>
    decreases d.len(),
{
    if d.len() == 0 {
        Ok(0)
    } else {
        match scan_digits(d.drop_last(), negative, min, max) {
            Err(e) => Err(e),
            Ok(v) => if !is_ascii_digit(d.last()) {
                Err(IntErrorKind::InvalidDigit)
            } else {
                let nv = if negative {
                    v * 10 - digit_value(d.last())
                } else {
                    v * 10 + digit_value(d.last())
                };
                if min <= nv <= max {
                    Ok(nv)
                } else if negative {
                    Err(IntErrorKind::NegOverflow)
                } else {
                    Err(IntErrorKind::PosOverflow)
                }
            },
        }
    }
}

/// The value of a decimal string for an integer type with range `[min, max]`:
/// an optional `+` sign (or `-` where the type is signed) and digits only.
pub open spec fn int_from_str(s: Seq<char>, signed: bool, min: int, max: int) -> Result<
    int,
    IntErrorKind,
> {
    if s.len() == 0 {
        Err(IntErrorKind::Empty)
    } else if (s[0] == '+' || s[0] == '-') && s.len() == 1 {
        Err(IntErrorKind::InvalidDigit)
    } else if s[0] == '+' {
        scan_digits(s.drop_first(), false, min, max)
    } else if s[0] == '-' && signed {
        scan_digits(s.drop_first(), true, min, max)
    } else {
        scan_digits(s, false, min, max)
    }
}

/// The decimal digits of `n`, without leading zeros.
pub open spec fn decimal(n: nat) -> Seq<char>
    decreases n,
{
    if n < 10 {
        seq![digit_char(n as int)]
    } else {
        decimal(n / 10).push(digit_char((n % 10) as int))
    }
}

proof fn lemma_scan_ok_in_range(d: Seq<char>, negative: bool, min: int, max: int)
    requires
        min <= 0 <= max,
    ensures
        scan_digits(d, negative, min, max) matches Ok(v) ==> min <= v <= max,
    decreases d.len(),
{
    if d.len() > 0 {
        lemma_scan_ok_in_range(d.drop_last(), negative, min, max);
    }
}

proof fn lemma_scan_err_persists(d: Seq<char>, i: int, negative: bool, min: int, max: int)
    requires
        0 <= i <= d.len(),
        scan_digits(d.take(i), negative, min, max) is Err,
    ensures
        scan_digits(d, negative, min, max) == scan_digits(d.take(i), negative, min, max),
    decreases d.len(),
{
    if i == d.len() {
        assert(d.take(i) == d);
    } else {
        assert(d.drop_last().take(i) == d.take(i));
        lemma_scan_err_persists(d.drop_last(), i, negative, min, max);
    }
}

proof fn lemma_digit_char(k: int)
    requires
        0 <= k < 10,
    ensures
        is_ascii_digit(digit_char(k)),
        digit_value(digit_char(k)) == k,
{
}

/// The decimal digits of a number read back as that number, for every range
/// `[0, max]` that holds it.
pub proof fn lemma_decimal_reads_back(n: nat, max: int)
    requires
        n <= max,
    ensures
        decimal(n).len() >= 1,
        forall|i: int| 0 <= i < decimal(n).len() ==> is_ascii_digit(#[trigger] decimal(n)[i]),
        scan_digits(decimal(n), false, 0, max) == Ok::<int, IntErrorKind>(n as int),
        int_from_str(decimal(n), false, 0, max) == Ok::<int, IntErrorKind>(n as int),
    decreases n,
{
    if n < 10 {
        lemma_digit_char(n as int);
        let d = decimal(n);
        assert(d.drop_last() =~= Seq::<char>::empty());
        assert(scan_digits(d.drop_last(), false, 0, max) == Ok::<int, IntErrorKind>(0));
        assert(d.last() == digit_char(n as int));
        assert(scan_digits(d, false, 0, max) == Ok::<int, IntErrorKind>(n as int));
        assert(is_ascii_digit(d[0]));
    } else {
        lemma_decimal_reads_back(n / 10, max);
        lemma_digit_char((n % 10) as int);
        let d = decimal(n);
        assert(d.drop_last() == decimal(n / 10));
        assert((n / 10) * 10 + n % 10 == n);
        assert(d.last() == digit_char((n % 10) as int));
        assert(scan_digits(d, false, 0, max) == Ok::<int, IntErrorKind>(n as int));
        assert forall|i: int| 0 <= i < d.len() implies is_ascii_digit(#[trigger] d[i]) by {
            if i < d.len() - 1 {
                assert(d[i] == decimal(n / 10)[i]);
            }
        }
        assert(is_ascii_digit(d[0]));
    }
}

/// Reads decimal digits into a value in `[min, max]`.
fn scan_digit_chars(d: &Vec<char>, negative: bool, min: i128, max: i128) -> (r: Result<
    i128,
    IntErrorKind,
>)
    requires
        -0x1_0000_0000_0000_0000_0000 <= min <= 0 <= max <= 0x1_0000_0000_0000_0000_0000,
    ensures
        match r {
            Ok(v) => scan_digits(d@, negative, min as int, max as int) == Ok::<int, IntErrorKind>(
                v as int,
            ),
            Err(e) => scan_digits(d@, negative, min as int, max as int) == Err::<int, IntErrorKind>(
                e,
            ),
        },
{
    let mut acc: i128 = 0;
    let mut i: usize = 0;
    assert(d@.take(0) =~= Seq::<char>::empty());
    while i < d.len()
        invariant
            i <= d.len(),
            -0x1_0000_0000_0000_0000_0000 <= min <= 0 <= max <= 0x1_0000_0000_0000_0000_0000,
            min <= acc <= max,
            scan_digits(d@.take(i as int), negative, min as int, max as int) == Ok::<
                int,
                IntErrorKind,
            >(acc as int),
        decreases d.len() - i,
    {
        let c = d[i];
        let ghost prefix = d@.take(i + 1);
        assert(prefix.drop_last() == d@.take(i as int));
        assert(prefix.last() == c);
        if !('0' <= c && c <= '9') {
            proof {
                lemma_scan_err_persists(d@, i + 1, negative, min as int, max as int);
            }
            return Err(IntErrorKind::InvalidDigit);
        }
        let k = (c as u32 - 48) as i128;
        let next = if negative {
            acc * 10 - k
        } else {
            acc * 10 + k
        };
        if next < min || next > max {
            proof {
                lemma_scan_err_persists(d@, i + 1, negative, min as int, max as int);
            }
            if negative {
                return Err(IntErrorKind::NegOverflow);
            } else {
                return Err(IntErrorKind::PosOverflow);
            }
        }
        acc = next;
        i = i + 1;
    }
    assert(d@.take(d.len() as int) == d@);
    Ok(acc)
}

/// Reads a decimal integer of a type with range `[min, max]`, by the rules of
/// `str::parse`.
pub fn parse_int_chars(s: &Vec<char>, signed: bool, min: i128, max: i128) -> (r: Result<
    i128,
    IntErrorKind,
>)
    requires
        -0x1_0000_0000_0000_0000_0000 <= min <= 0 <= max <= 0x1_0000_0000_0000_0000_0000,
    ensures
        match r {
            Ok(v) => int_from_str(s@, signed, min as int, max as int) == Ok::<int, IntErrorKind>(
                v as int,
            ) && min <= v <= max,
            Err(e) => int_from_str(s@, signed, min as int, max as int) == Err::<int, IntErrorKind>(
                e,
            ),
        },
{
    if s.len() == 0 {
        return Err(IntErrorKind::Empty);
    }
    let first = s[0];
    if (first == '+' || first == '-') && s.len() == 1 {
        return Err(IntErrorKind::InvalidDigit);
    }
    let (digits, negative) = if first == '+' {
        (chars_skip(s, 1), false)
    } else if first == '-' && signed {
        (chars_skip(s, 1), true)
    } else {
        (chars_skip(s, 0), false)
    };
    assert(s@.skip(1) == s@.drop_first());
    assert(s@.skip(0) == s@);
    let r = scan_digit_chars(&digits, negative, min, max);
    proof {
        lemma_scan_ok_in_range(digits@, negative, min as int, max as int);
    }
    r
}

/// `str::parse::<u32>`.
pub fn parse_u32(s: &str) -> (r: Result<u32, IntErrorKind>)
    ensures
        match r {
            Ok(v) => int_from_str(s@, false, 0, u32::MAX as int) == Ok::<int, IntErrorKind>(
                v as int,
            ),
            Err(e) => int_from_str(s@, false, 0, u32::MAX as int) == Err::<int, IntErrorKind>(e),
        },
{
    let cs = chars_of(s);
    match parse_int_chars(&cs, false, 0, 0xffff_ffff) {
        Ok(v) => Ok(v as u32),
        Err(e) => Err(e),
    }
}

/// `str::parse::<u64>`.
pub fn parse_u64(s: &str) -> (r: Result<u64, IntErrorKind>)
    ensures
        match r {
            Ok(v) => int_from_str(s@, false, 0, u64::MAX as int) == Ok::<int, IntErrorKind>(
                v as int,
            ),
            Err(e) => int_from_str(s@, false, 0, u64::MAX as int) == Err::<int, IntErrorKind>(e),
        },
{
    let cs = chars_of(s);
    match parse_int_chars(&cs, false, 0, 0xffff_ffff_ffff_ffff) {
        Ok(v) => Ok(v as u64),
        Err(e) => Err(e),
    }
}

/// `str::parse::<i32>`.
pub fn parse_i32(s: &str) -> (r: Result<i32, IntErrorKind>)
    ensures
        match r {
            Ok(v) => int_from_str(s@, true, i32::MIN as int, i32::MAX as int) == Ok::<
                int,
                IntErrorKind,
            >(v as int),
            Err(e) => int_from_str(s@, true, i32::MIN as int, i32::MAX as int) == Err::<
                int,
                IntErrorKind,
            >(e),
        },
{
    let cs = chars_of(s);
    match parse_int_chars(&cs, true, -0x8000_0000, 0x7fff_ffff) {
        Ok(v) => Ok(v as i32),
        Err(e) => Err(e),
    }
}

/// Appends the decimal digits of `n`.
pub fn push_decimal(out: &mut String, n: u32)
    ensures
        final(out)@ == old(out)@ + decimal(n as nat),
    decreases n,
{
    if n >= 10 {
        push_decimal(out, n / 10);
    }
    let c = ((n % 10) as u8 + 48) as char;
    assert(c == digit_char((n % 10) as int));
    push_char(out, c);
}

} // verus!
