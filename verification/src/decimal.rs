//! Decimal numerals: what `str::parse` accepts for unsigned integers and what
//! `to_string` writes for them.

use vstd::prelude::*;
use crate::text::{has_char, has_ws, is_ws, push_char, push_str};

verus! {

pub open spec fn is_digit(c: char) -> bool {
    '0' <= c <= '9'
}

pub open spec fn digit_value(c: char) -> nat {
    (c as u32 - '0' as u32) as nat
}

pub open spec fn digit_char(d: nat) -> char {
    ('0' as u32 + d) as char
}

pub open spec fn all_digits(s: Seq<char>) -> bool {
    forall|i: int| 0 <= i < s.len() ==> is_digit(#[trigger] s[i])
}

/// The number that a string of decimal digits denotes.
pub open spec fn digits_value(s: Seq<char>) -> nat
    decreases s.len(),
{
    if s.len() == 0 {
        0
    } else {
        digits_value(s.drop_last()) * 10 + digit_value(s.last())
    }
}

/// What `str::parse::<uN>` returns for an unsigned type whose largest value is
/// `max`: an optional `+`, then one or more ASCII digits denoting at most `max`.
pub open spec fn parse_unsigned(s: Seq<char>, max: nat) -> Option<nat> {
    let d = if s.len() > 0 && s[0] == '+' {
        s.drop_first()
    } else {
        s
    };
    if d.len() > 0 && all_digits(d) && digits_value(d) <= max {
        Some(digits_value(d))
    } else {
        None
    }
}

/// The decimal form of `n` that `to_string` writes, with no leading zero.
pub open spec fn decimal(n: nat) -> Seq<char>
    decreases n,
{
    if n < 10 {
        seq![digit_char(n)]
    } else {
        decimal(n / 10).push(digit_char(n % 10))
    }
}

pub proof fn lemma_decimal(n: nat)
    ensures
        decimal(n).len() > 0,
        all_digits(decimal(n)),
        digits_value(decimal(n)) == n,
        decimal(n)[0] != '+',
        !has_char(decimal(n), ':'),
        !has_char(decimal(n), '@'),
        !has_ws(decimal(n)),
        !has_char(decimal(n), '\\'),
        !has_char(decimal(n), '\n'),
        !has_char(decimal(n), '\r'),
    decreases n,
{
    if n < 10 {
        assert(digit_value(digit_char(n)) == n);
        assert(decimal(n).drop_last() =~= Seq::<char>::empty());
        assert(digits_value(Seq::<char>::empty()) == 0);
    } else {
        lemma_decimal(n / 10);
        let s = decimal(n);
        assert(digit_value(digit_char(n % 10)) == n % 10);
        assert(s.last() == digit_char(n % 10));
        assert(s.drop_last() == decimal(n / 10));
        assert(digits_value(s) == digits_value(decimal(n / 10)) * 10 + n % 10);
        assert((n / 10) * 10 + n % 10 == n);
        assert(s.drop_last() == decimal(n / 10));
        assert forall|i: int| 0 <= i < s.len() implies is_digit(#[trigger] s[i]) by {
            if i < s.len() - 1 {
                assert(s[i] == decimal(n / 10)[i]);
            }
        }
    }
    let s = decimal(n);
    assert forall|i: int| 0 <= i < s.len() implies !is_ws(#[trigger] s[i]) && s[i] != ':' && s[i]
        != '@' && s[i] != '\\' && s[i] != '\n' && s[i] != '\r' by {
        assert(is_digit(s[i]));
    }
}

pub proof fn lemma_parse_decimal(n: nat, max: nat)
    requires
        n <= max,
    ensures
        parse_unsigned(decimal(n), max) == Some(n),
{
    lemma_decimal(n);
}

proof fn lemma_digits_prefix(s: Seq<char>, i: int)
    requires
        0 <= i <= s.len(),
        all_digits(s),
    ensures
        digits_value(s.take(i)) <= digits_value(s),
    decreases s.len(),
{
    if i < s.len() {
        assert(s.drop_last().take(i) == s.take(i));
        lemma_digits_prefix(s.drop_last(), i);
    } else {
        assert(s.take(i) == s);
    }
}

/// Why `str::parse::<uN>` refuses a text, by the kinds of std's
/// `IntErrorKind` that an unsigned type can give.
#[derive(Debug, Clone, Copy, PartialEq, Eq, Structural)]
pub enum IntErrorKind {
    Empty,
    InvalidDigit,
    PosOverflow,
}

/// The message of std's `ParseIntError` of each kind.
pub open spec fn int_error_message(k: IntErrorKind) -> Seq<char> {
    match k {
        IntErrorKind::Empty => "cannot parse integer from empty string"@,
        IntErrorKind::InvalidDigit => "invalid digit found in string"@,
        IntErrorKind::PosOverflow => "number too large to fit in target type"@,
    }
}

impl IntErrorKind {
    /// The message of std's `ParseIntError` of this kind.
    pub fn message(&self) -> (r: String)
        ensures
            r@ == int_error_message(*self),
    {
        let text = match self {
            IntErrorKind::Empty => "cannot parse integer from empty string",
            IntErrorKind::InvalidDigit => "invalid digit found in string",
            IntErrorKind::PosOverflow => "number too large to fit in target type",
        };
        let mut out = String::new();
        push_str(&mut out, text);
        out
    }
}

/// The first `i` characters of `d` read as std reads digits, left to right:
/// the value so far, or the first failure, a character that is no digit or a
/// value above `max`.
pub open spec fn scan_digits(d: Seq<char>, max: nat, i: nat) -> Result<nat, IntErrorKind>
    decreases i,
{
    if i == 0 {
        Ok(0)
    } else {
        match scan_digits(d, max, (i - 1) as nat) {
            Err(e) => Err(e),
            Ok(v) => if !is_digit(d[i - 1]) {
                Err(IntErrorKind::InvalidDigit)
            } else if v * 10 + digit_value(d[i - 1]) > max {
                Err(IntErrorKind::PosOverflow)
            } else {
                Ok(v * 10 + digit_value(d[i - 1]))
            },
        }
    }
}

/// What `str::parse::<uN>` returns for an unsigned type whose largest value is
/// `max`, with the kind of its error: an empty text is `Empty`, a lone `+` an
/// invalid digit, and otherwise the digits after an optional `+` are scanned.
pub open spec fn int_parse(s: Seq<char>, max: nat) -> Result<nat, IntErrorKind> {
    if s.len() == 0 {
        Err(IntErrorKind::Empty)
    } else if s[0] == '+' && s.len() == 1 {
        Err(IntErrorKind::InvalidDigit)
    } else {
        let d = if s[0] == '+' {
            s.drop_first()
        } else {
            s
        };
        scan_digits(d, max, d.len())
    }
}

proof fn lemma_scan_ok(d: Seq<char>, max: nat, i: nat)
    requires
        i <= d.len(),
    ensures
        scan_digits(d, max, i) matches Ok(v) ==> all_digits(d.take(i as int)) && v == digits_value(d.take(i as int))
            && v <= max,
    decreases i,
{
    if i > 0 {
        lemma_scan_ok(d, max, (i - 1) as nat);
        let t = d.take(i as int);
        assert(t.drop_last() =~= d.take(i - 1));
        assert(t.last() == d[i - 1]);
        if scan_digits(d, max, i) is Ok {
            assert forall|k: int| 0 <= k < t.len() implies is_digit(#[trigger] t[k]) by {
                if k < i - 1 {
                    assert(t[k] == d.take(i - 1)[k]);
                }
            }
        }
    } else {
        assert(d.take(0) =~= Seq::<char>::empty());
    }
}

proof fn lemma_scan_digits(d: Seq<char>, max: nat, i: nat)
    requires
        i <= d.len(),
        all_digits(d),
        digits_value(d) <= max,
    ensures
        scan_digits(d, max, i) == Ok::<nat, IntErrorKind>(digits_value(d.take(i as int))),
    decreases i,
{
    if i > 0 {
        lemma_scan_digits(d, max, (i - 1) as nat);
        lemma_digits_prefix(d, i as int);
        let t = d.take(i as int);
        assert(t.drop_last() =~= d.take(i - 1));
        assert(t.last() == d[i - 1]);
    } else {
        assert(d.take(0) =~= Seq::<char>::empty());
    }
}

proof fn lemma_scan_err_extends(d: Seq<char>, max: nat, k: nat, j: nat)
    requires
        k <= j,
        scan_digits(d, max, k) is Err,
    ensures
        scan_digits(d, max, j) == scan_digits(d, max, k),
    decreases j - k,
{
    if k < j {
        lemma_scan_err_extends(d, max, k, (j - 1) as nat);
    }
}

/// `int_parse` succeeds exactly where `parse_unsigned` does, with the same
/// value.
pub proof fn lemma_int_parse(s: Seq<char>, max: nat)
    ensures
        match int_parse(s, max) {
            Ok(n) => parse_unsigned(s, max) == Some(n),
            Err(_) => parse_unsigned(s, max) is None,
        },
{
    if s.len() > 0 && !(s[0] == '+' && s.len() == 1) {
        let d = if s[0] == '+' {
            s.drop_first()
        } else {
            s
        };
        lemma_scan_ok(d, max, d.len());
        assert(d.take(d.len() as int) =~= d);
        if all_digits(d) && digits_value(d) <= max {
            lemma_scan_digits(d, max, d.len());
        }
    }
}

/// Reading the decimal form of `n`, at most `max`, gives `n`.
pub proof fn lemma_int_parse_decimal(n: nat, max: nat)
    requires
        n <= max,
    ensures
        int_parse(decimal(n), max) == Ok::<nat, IntErrorKind>(n),
{
    lemma_parse_decimal(n, max);
    lemma_int_parse(decimal(n), max);
}

/// The value of `v[lo..hi]` read as `str::parse::<uN>` reads it, where `max`
/// is the largest value of the type, or the kind of its error.
pub fn parse_int(v: &Vec<char>, lo: usize, hi: usize, max: u64) -> (r: Result<u64, IntErrorKind>)
    requires
        lo <= hi <= v@.len(),
    ensures
        match int_parse(v@.subrange(lo as int, hi as int), max as nat) {
            Ok(n) => r == Ok::<u64, IntErrorKind>(n as u64),
            Err(k) => r == Err::<u64, IntErrorKind>(k),
        },
{
    let ghost s = v@.subrange(lo as int, hi as int);
    if lo == hi {
        return Err(IntErrorKind::Empty);
    }
    let mut start = lo;
    if v[lo] == '+' {
        if hi - lo == 1 {
            return Err(IntErrorKind::InvalidDigit);
        }
        start = lo + 1;
    }
    let ghost d = v@.subrange(start as int, hi as int);
    assert(d =~= (if s[0] == '+' { s.drop_first() } else { s }));
    let mut acc: u64 = 0;
    let mut i = start;
    while i < hi
        invariant
            lo <= start <= i <= hi <= v@.len(),
            d == v@.subrange(start as int, hi as int),
            s == v@.subrange(lo as int, hi as int),
            int_parse(s, max as nat) == scan_digits(d, max as nat, d.len()),
            scan_digits(d, max as nat, (i - start) as nat) == Ok::<nat, IntErrorKind>(acc as nat),
        decreases hi - i,
    {
        let c = v[i];
        let ghost k = (i - start + 1) as nat;
        assert(d[i - start] == c);
        if !('0' <= c && c <= '9') {
            proof {
                assert(scan_digits(d, max as nat, k) == Err::<nat, IntErrorKind>(IntErrorKind::InvalidDigit));
                lemma_scan_err_extends(d, max as nat, k, d.len());
                assert(int_parse(s, max as nat) == Err::<nat, IntErrorKind>(IntErrorKind::InvalidDigit));
            }
            return Err(IntErrorKind::InvalidDigit);
        }
        let dv = (c as u32 - '0' as u32) as u64;
        assert(dv as nat == digit_value(c));
        let next = match acc.checked_mul(10) {
            None => None,
            Some(m) => m.checked_add(dv),
        };
        match next {
            Some(n) if n <= max => {
                acc = n;
            },
            _ => {
                proof {
                    assert(acc * 10 + dv > max);
                    assert(scan_digits(d, max as nat, k) == Err::<nat, IntErrorKind>(IntErrorKind::PosOverflow));
                    lemma_scan_err_extends(d, max as nat, k, d.len());
                    assert(int_parse(s, max as nat) == Err::<nat, IntErrorKind>(IntErrorKind::PosOverflow));
                }
                return Err(IntErrorKind::PosOverflow);
            },
        }
        i = i + 1;
    }
    Ok(acc)
}

/// The value of `v[lo..hi]` read as `str::parse::<uN>` reads it, where `max`
/// is the largest value of the type.
pub fn parse_number(v: &Vec<char>, lo: usize, hi: usize, max: u64) -> (r: Option<u64>)
    requires
        lo <= hi <= v@.len(),
    ensures
        match parse_unsigned(v@.subrange(lo as int, hi as int), max as nat) {
            Some(n) => r == Some(n as u64),
            None => r is None,
        },
{
    let r = parse_int(v, lo, hi, max);
    proof {
        lemma_int_parse(v@.subrange(lo as int, hi as int), max as nat);
    }
    match r {
        Ok(n) => Some(n),
        Err(_) => None,
    }
}

/// Appends the decimal form of `n` to `out`.
pub fn push_decimal(out: &mut String, n: u64)
    ensures
        final(out)@ == old(out)@ + decimal(n as nat),
    decreases n,
{
    if n >= 10 {
        push_decimal(out, n / 10);
    }
    let d = n % 10;
    let c = char_from_digit(d);
    push_char(out, c);
    proof {
        if n >= 10 {
            assert(decimal(n as nat) == decimal((n / 10) as nat).push(digit_char((n % 10) as nat)));
        } else {
            assert(decimal(n as nat) == seq![digit_char(n as nat)]);
        }
    }
}

fn char_from_digit(d: u64) -> (c: char)
    requires
        d < 10,
    ensures
        c == digit_char(d as nat),
{
    if d == 0 { '0' } else if d == 1 { '1' } else if d == 2 { '2' } else if d == 3 { '3' }
    else if d == 4 { '4' } else if d == 5 { '5' } else if d == 6 { '6' } else if d == 7 { '7' }
    else if d == 8 { '8' } else { '9' }
}

} // verus!
