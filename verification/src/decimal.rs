//! Unsigned numbers written in decimal: reading them the way `str::parse` does for an
//! unsigned type, and writing them the way `format!("{}")` does.
use vstd::prelude::*;

verus! {

/// `c` is one of the ten decimal digits.
pub open spec fn is_digit(c: char) -> bool {
    '0' <= c && c <= '9'
}

/// The value of the digit `c`.
pub open spec fn digit_value(c: char) -> int {
    (c as int) - ('0' as int)
}

/// The digit that stands for `d`.
pub open spec fn digit_char(d: int) -> char {
    if d == 0 {
        '0'
    } else if d == 1 {
        '1'
    } else if d == 2 {
        '2'
    } else if d == 3 {
        '3'
    } else if d == 4 {
        '4'
    } else if d == 5 {
        '5'
    } else if d == 6 {
        '6'
    } else if d == 7 {
        '7'
    } else if d == 8 {
        '8'
    } else {
        '9'
    }
}

/// Every character of `s` is a digit.
pub open spec fn all_digits(s: Seq<char>) -> bool {
    forall|i: int| 0 <= i < s.len() ==> #[trigger] is_digit(s[i])
}

/// The number the digits `s` spell.
pub open spec fn digits_value(s: Seq<char>) -> int
    decreases s.len(),
{
    if s.len() == 0 {
        0
    } else {
        digits_value(s.drop_last()) * 10 + digit_value(s.last())
    }
}

/// What reading `s` as an unsigned number no greater than `max` gives, as the
/// standard library's `parse` does for an unsigned type: an optional `+`, then at
/// least one digit and nothing else, naming a number that fits.
pub open spec fn unsigned_value(s: Seq<char>, max: int) -> Option<int> {
    let body = if s.len() > 0 && s[0] == '+' {
        s.drop_first()
    } else {
        s
    };
    if body.len() > 0 && all_digits(body) && digits_value(body) <= max {
        Some(digits_value(body))
    } else {
        None
    }
}

/// `n` written in decimal, with no sign and no leading zero.
pub open spec fn decimal_of(n: nat) -> Seq<char>
    decreases n,
{
    if n < 10 {
        seq![digit_char(n as int)]
    } else {
        decimal_of(n / 10).push(digit_char((n % 10) as int))
    }
}

proof fn lemma_digit_char(d: int)
    requires
        0 <= d < 10,
    ensures
        is_digit(digit_char(d)),
        digit_value(digit_char(d)) == d,
{
}

/// Digits only ever make a number larger as more of them are read.
pub proof fn lemma_digits_value_grows(s: Seq<char>, i: int)
    requires
        all_digits(s),
        0 <= i <= s.len(),
    ensures
        0 <= digits_value(s.take(i)) <= digits_value(s),
    decreases s.len() - i,
{
    if i < s.len() {
        lemma_digits_value_grows(s, i + 1);
        assert(s.take(i + 1).drop_last() =~= s.take(i));
        assert(is_digit(s[i]));
    } else {
        assert(s.take(i) =~= s);
        lemma_digits_value_nonnegative(s);
    }
}

proof fn lemma_digits_value_nonnegative(s: Seq<char>)
    requires
        all_digits(s),
    ensures
        digits_value(s) >= 0,
    decreases s.len(),
{
    if s.len() > 0 {
        assert(all_digits(s.drop_last()));
        lemma_digits_value_nonnegative(s.drop_last());
        assert(is_digit(s.last()));
    }
}

/// Writing a number in decimal and reading it back gives the number.
pub proof fn lemma_decimal_round_trip(n: nat)
    ensures
        decimal_of(n).len() > 0,
        all_digits(decimal_of(n)),
        digits_value(decimal_of(n)) == n,
        decimal_of(n)[0] != '+',
    decreases n,
{
    if n < 10 {
        lemma_digit_char(n as int);
        assert(decimal_of(n).drop_last() =~= Seq::<char>::empty());
        assert(digits_value(Seq::<char>::empty()) == 0);
    } else {
        lemma_decimal_round_trip(n / 10);
        lemma_digit_char((n % 10) as int);
        assert(decimal_of(n).drop_last() =~= decimal_of(n / 10));
        assert(decimal_of(n).last() == digit_char((n % 10) as int));
        assert(n == (n / 10) * 10 + n % 10) by (nonlinear_arith);
        assert(all_digits(decimal_of(n))) by {
            assert forall|i: int| 0 <= i < decimal_of(n).len() implies #[trigger] is_digit(
                decimal_of(n)[i],
            ) by {
                if i < decimal_of(n).len() - 1 {
                    assert(decimal_of(n)[i] == decimal_of(n / 10)[i]);
                }
            }
        }
    }
}

/// So reading what was written gives the number back, whatever bound it is read under
/// that the number fits.
pub proof fn lemma_unsigned_value_of_decimal(n: nat, max: int)
    requires
        n <= max,
    ensures
        unsigned_value(decimal_of(n), max) == Some(n as int),
{
    lemma_decimal_round_trip(n);
}

fn digit(d: u64) -> (c: char)
    requires
        d < 10,
    ensures
        c == digit_char(d as int),
{
    match d {
        0 => '0',
        1 => '1',
        2 => '2',
        3 => '3',
        4 => '4',
        5 => '5',
        6 => '6',
        7 => '7',
        8 => '8',
        _ => '9',
    }
}

/// `n` written in decimal.
pub fn decimal(n: u64) -> (v: Vec<char>)
    ensures
        v@ == decimal_of(n as nat),
    decreases n,
{
    if n < 10 {
        let mut v: Vec<char> = Vec::new();
        v.push(digit(n));
        assert(v@ =~= seq![digit_char(n as int)]);
        v
    } else {
        let mut v = decimal(n / 10);
        v.push(digit(n % 10));
        v
    }
}

/// Reads `s` as an unsigned number no greater than `max`.
pub fn parse_unsigned(s: &[char], max: u64) -> (n: Option<u64>)
    ensures
        match n {
            Some(v) => unsigned_value(s@, max as int) == Some(v as int),
            None => unsigned_value(s@, max as int) is None,
        },
{
    let start: usize = if s.len() > 0 && s[0] == '+' {
        1
    } else {
        0
    };
    let ghost body = if s@.len() > 0 && s@[0] == '+' {
        s@.drop_first()
    } else {
        s@
    };
    assert(body =~= s@.skip(start as int));
    if start == s.len() {
        return None;
    }
    let mut acc: u64 = 0;
    let mut i = start;
    while i < s.len()
        invariant
            start <= i <= s.len(),
            start < s.len(),
            body =~= s@.skip(start as int),
            body == (if s@.len() > 0 && s@[0] == '+' {
                s@.drop_first()
            } else {
                s@
            }),
            all_digits(body.take(i - start)),
            acc as int == digits_value(body.take(i - start)),
            acc <= max,
        decreases s.len() - i,
    {
        let c = s[i];
        assert(body[i - start] == c);
        if c < '0' || c > '9' {
            assert(!is_digit(body[i - start]));
            return None;
        }
        let d = ((c as u32) - ('0' as u32)) as u64;
        assert(d as int == digit_value(c));
        assert(body.take(i + 1 - start).drop_last() =~= body.take(i - start));
        assert(body.take(i + 1 - start).last() == c);
        assert(digits_value(body.take(i + 1 - start)) == acc * 10 + d);
        assert(all_digits(body.take(i + 1 - start))) by {
            assert forall|k: int| 0 <= k < body.take(i + 1 - start).len() implies #[trigger] is_digit(
                body.take(i + 1 - start)[k],
            ) by {
                if k < i - start {
                    assert(body.take(i + 1 - start)[k] == body.take(i - start)[k]);
                }
            }
        }
        let times = acc.checked_mul(10);
        let next = match times {
            Some(t) => t.checked_add(d),
            None => None,
        };
        match next {
            Some(v) => {
                if v > max {
                    proof {
                        lemma_past_max(body, (i + 1 - start) as int, max as int);
                    }
                    return None;
                }
                acc = v;
            },
            None => {
                proof {
                    lemma_past_max(body, (i + 1 - start) as int, max as int);
                }
                return None;
            },
        }
        i = i + 1;
    }
    assert(body.take(s.len() - start) =~= body);
    Some(acc)
}

/// A prefix that already names a number past `max` leaves the whole past it too, if it
/// is digits at all — either way the whole is not a number under `max`.
proof fn lemma_past_max(body: Seq<char>, i: int, max: int)
    requires
        0 < i <= body.len(),
        all_digits(body.take(i)),
        digits_value(body.take(i)) > max,
    ensures
        !(all_digits(body) && digits_value(body) <= max),
{
    if all_digits(body) {
        lemma_digits_value_grows(body, i);
    }
}

/// Reads `s` as a `u64`, as `str::parse::<u64>` does.
pub fn parse_u64(s: &[char]) -> (n: Option<u64>)
    ensures
        match n {
            Some(v) => unsigned_value(s@, u64::MAX as int) == Some(v as int),
            None => unsigned_value(s@, u64::MAX as int) is None,
        },
{
    parse_unsigned(s, u64::MAX)
}

/// Reads `s` as a `u32`, as `str::parse::<u32>` does.
pub fn parse_u32(s: &[char]) -> (n: Option<u32>)
    ensures
        match n {
            Some(v) => unsigned_value(s@, u32::MAX as int) == Some(v as int),
            None => unsigned_value(s@, u32::MAX as int) is None,
        },
{
    match parse_unsigned(s, 0xffff_ffff) {
        Some(v) => Some(v as u32),
        None => None,
    }
}

/// Reads `s` as a `usize`, as `str::parse::<usize>` does.
pub fn parse_usize(s: &[char]) -> (n: Option<usize>)
    ensures
        match n {
            Some(v) => unsigned_value(s@, usize::MAX as int) == Some(v as int),
            None => unsigned_value(s@, usize::MAX as int) is None,
        },
{
    match parse_unsigned(s, usize::MAX as u64) {
        Some(v) => Some(v as usize),
        None => None,
    }
}

} // verus!
