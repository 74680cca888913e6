//! Decimal numbers in text: reading a `usize` as `str::parse` does, and writing one.

use vstd::prelude::*;

verus! {

/// Why a decimal number could not be read, as `std::num::IntErrorKind` names it.
#[derive(Clone, Copy, Debug, PartialEq, Eq)]
pub enum ParseIntErrorKind {
    Empty,
    InvalidDigit,
    PosOverflow,
}

pub open spec fn is_digit(c: char) -> bool {
    '0' <= c <= '9'
}

pub open spec fn digit_value(c: char) -> nat {
    (c as u32 - '0' as u32) as nat
}

/// Reading the digits `s[i..]` after the value `acc` was read from the digits before:
/// at each digit, a non-digit is an invalid digit, and a value above `usize::MAX` is an
/// overflow.
pub open spec fn parse_digits_from(s: Seq<char>, i: int, acc: nat) -> Result<nat, ParseIntErrorKind>
    decreases s.len() - i,
{
    if i < 0 || i >= s.len() {
        Ok(acc)
    } else if !is_digit(s[i]) {
        Err(ParseIntErrorKind::InvalidDigit)
    } else if acc * 10 + digit_value(s[i]) > usize::MAX {
        Err(ParseIntErrorKind::PosOverflow)
    } else {
        parse_digits_from(s, i + 1, acc * 10 + digit_value(s[i]))
    }
}

/// `str::parse::<usize>`: an optional `+` followed by at least one decimal digit.
pub open spec fn parse_usize_spec(s: Seq<char>) -> Result<nat, ParseIntErrorKind> {
    if s.len() == 0 {
        Err(ParseIntErrorKind::Empty)
    } else if s[0] == '+' {
        if s.len() == 1 {
            Err(ParseIntErrorKind::InvalidDigit)
        } else {
            parse_digits_from(s, 1, 0)
        }
    } else {
        parse_digits_from(s, 0, 0)
    }
}

/// Reads the decimal number in chars `lo..hi` of `v`.
pub fn parse_usize_range(v: &Vec<char>, lo: usize, hi: usize) -> (r: Result<usize, ParseIntErrorKind>)
    requires
        lo <= hi <= v.len(),
    ensures
        match (r, parse_usize_spec(v@.subrange(lo as int, hi as int))) {
            (Ok(x), Ok(y)) => x == y,
            (Err(e1), Err(e2)) => e1 == e2,
            _ => false,
        },
{
    let ghost s = v@.subrange(lo as int, hi as int);
    if lo == hi {
        return Err(ParseIntErrorKind::Empty);
    }
    let mut i = lo;
    if v[lo] == '+' {
        if hi - lo == 1 {
            return Err(ParseIntErrorKind::InvalidDigit);
        }
        i = lo + 1;
    }
    let mut acc: usize = 0;
    while i < hi
        invariant
            lo <= i <= hi <= v.len(),
            s == v@.subrange(lo as int, hi as int),
            s.len() > 0,
            parse_usize_spec(s) == parse_digits_from(s, i - lo, acc as nat),
        decreases hi - i,
    {
        let c = v[i];
        if !('0' <= c && c <= '9') {
            return Err(ParseIntErrorKind::InvalidDigit);
        }
        let d = (c as u32 - '0' as u32) as usize;
        if acc > (usize::MAX - d) / 10 {
            proof {
                assert(acc * 10 + d > usize::MAX) by (nonlinear_arith)
                    requires
                        acc > (usize::MAX - d) / 10,
                        d <= 9,
                ;
            }
            return Err(ParseIntErrorKind::PosOverflow);
        }
        proof {
            assert(acc * 10 + d <= usize::MAX) by (nonlinear_arith)
                requires
                    acc <= (usize::MAX - d) / 10,
                    d <= 9,
            ;
        }
        acc = acc * 10 + d;
        i += 1;
    }
    Ok(acc)
}

/// The message std gives for a number that could not be read.
pub open spec fn parse_int_error_message(k: ParseIntErrorKind) -> Seq<char> {
    match k {
        ParseIntErrorKind::Empty => "cannot parse integer from empty string"@,
        ParseIntErrorKind::InvalidDigit => "invalid digit found in string"@,
        ParseIntErrorKind::PosOverflow => "number too large to fit in target type"@,
    }
}

pub fn parse_int_error_message_exec(k: ParseIntErrorKind) -> (r: &'static str)
    ensures
        r@ == parse_int_error_message(k),
{
    match k {
        ParseIntErrorKind::Empty => {
            proof {
                reveal_strlit("cannot parse integer from empty string");
            }
            "cannot parse integer from empty string"
        },
        ParseIntErrorKind::InvalidDigit => {
            proof {
                reveal_strlit("invalid digit found in string");
            }
            "invalid digit found in string"
        },
        ParseIntErrorKind::PosOverflow => {
            proof {
                reveal_strlit("number too large to fit in target type");
            }
            "number too large to fit in target type"
        },
    }
}

/// The decimal digits of `n`, most significant first.
pub open spec fn decimal(n: nat) -> Seq<char>
    decreases n,
{
    if n < 10 {
        seq![(n + '0' as nat) as char]
    } else {
        decimal(n / 10).push(((n % 10) + '0' as nat) as char)
    }
}

/// The decimal digits of `n`.
pub fn usize_to_decimal(n: usize) -> (r: Vec<char>)
    ensures
        r@ == decimal(n as nat),
    decreases n,
{
    if n < 10 {
        let c = char_of_digit(n);
        let mut r = Vec::new();
        r.push(c);
        proof {
            assert(r@ =~= seq![c]);
        }
        r
    } else {
        let mut r = usize_to_decimal(n / 10);
        r.push(char_of_digit(n % 10));
        r
    }
}

fn char_of_digit(d: usize) -> (c: char)
    requires
        d < 10,
    ensures
        c == (d + '0' as nat) as char,
{
    if d == 0 { '0' } else if d == 1 { '1' } else if d == 2 { '2' } else if d == 3 { '3' } else if d == 4 { '4' }
    else if d == 5 { '5' } else if d == 6 { '6' } else if d == 7 { '7' } else if d == 8 { '8' } else { '9' }
}

/// The decimal digits of `n`.
pub fn u64_to_decimal(n: u64) -> (r: Vec<char>)
    ensures
        r@ == decimal(n as nat),
    decreases n,
{
    if n < 10 {
        let c = char_of_digit(n as usize);
        let mut r = Vec::new();
        r.push(c);
        proof {
            assert(r@ =~= seq![c]);
        }
        r
    } else {
        let mut r = u64_to_decimal(n / 10);
        r.push(char_of_digit((n % 10) as usize));
        r
    }
}

/// An integer as `Display` writes it: a minus sign for a negative one, then the decimal
/// digits of its magnitude.
pub open spec fn int_text(n: int) -> Seq<char> {
    if n < 0 {
        seq!['-'] + decimal((-n) as nat)
    } else {
        decimal(n as nat)
    }
}

/// `n` written as `Display` writes an `i64`.
pub fn i64_to_decimal(n: i64) -> (r: Vec<char>)
    ensures
        r@ == int_text(n as int),
{
    if n < 0 {
        let magnitude: u64 = if n == i64::MIN {
            0x8000_0000_0000_0000u64
        } else {
            (-n) as u64
        };
        let digits = u64_to_decimal(magnitude);
        let mut r: Vec<char> = Vec::new();
        r.push('-');
        let mut i: usize = 0;
        while i < digits.len()
            invariant
                0 <= i <= digits.len(),
                r@ == seq!['-'] + digits@.take(i as int),
            decreases digits.len() - i,
        {
            r.push(digits[i]);
            proof {
                assert(digits@.take(i + 1) =~= digits@.take(i as int).push(digits@[i as int]));
            }
            i += 1;
        }
        proof {
            assert(digits@.take(digits.len() as int) =~= digits@);
        }
        r
    } else {
        u64_to_decimal(n as u64)
    }
}

proof fn lemma_parse_digits_push(x: Seq<char>, c: char, k: int, acc: nat)
    requires
        0 <= k <= x.len(),
        is_digit(c),
    ensures
        parse_digits_from(x.push(c), k, acc) == match parse_digits_from(x, k, acc) {
            Ok(v) => if v * 10 + digit_value(c) > usize::MAX {
                Err(ParseIntErrorKind::PosOverflow)
            } else {
                Ok(v * 10 + digit_value(c))
            },
            Err(e) => Err(e),
        },
    decreases x.len() - k,
{
    let y = x.push(c);
    if k < x.len() {
        assert(y[k] == x[k]);
        if is_digit(x[k]) && acc * 10 + digit_value(x[k]) <= usize::MAX {
            lemma_parse_digits_push(x, c, k + 1, acc * 10 + digit_value(x[k]));
        }
    } else {
        assert(y[k] == c);
        assert(parse_digits_from(x, k, acc) == Ok::<nat, ParseIntErrorKind>(acc));
        assert(parse_digits_from(y, k + 1, acc * 10 + digit_value(c)) == Ok::<nat, ParseIntErrorKind>(
            acc * 10 + digit_value(c),
        ));
    }
}

/// The decimal digits of a number are digits.
pub proof fn lemma_decimal_digits(n: nat)
    ensures
        decimal(n).len() > 0,
        forall|i: int| 0 <= i < decimal(n).len() ==> is_digit(#[trigger] decimal(n)[i]),
    decreases n,
{
    if n >= 10 {
        lemma_decimal_digits(n / 10);
        assert forall|i: int| 0 <= i < decimal(n).len() implies is_digit(#[trigger] decimal(n)[i]) by {
            if i < decimal(n / 10).len() {
                assert(decimal(n)[i] == decimal(n / 10)[i]);
            }
        }
    }
}

/// A number written in decimal is read back as itself.
pub proof fn lemma_decimal_read_back(n: nat)
    requires
        n <= usize::MAX,
    ensures
        parse_usize_spec(decimal(n)) == Ok::<nat, ParseIntErrorKind>(n),
    decreases n,
{
    lemma_decimal_digits(n);
    assert(is_digit(decimal(n)[0]));
    if n < 10 {
        let c = decimal(n)[0];
        assert(digit_value(c) == n);
        assert(parse_digits_from(decimal(n), 1, n) == Ok::<nat, ParseIntErrorKind>(n));
    } else {
        lemma_decimal_read_back(n / 10);
        lemma_decimal_digits(n / 10);
        let c = ((n % 10) + '0' as nat) as char;
        assert(is_digit(c));
        assert(digit_value(c) == n % 10);
        assert(decimal(n / 10)[0] != '+');
        lemma_parse_digits_push(decimal(n / 10), c, 0, 0);
        assert((n / 10) * 10 + n % 10 == n) by (nonlinear_arith);
    }
}

} // verus!
