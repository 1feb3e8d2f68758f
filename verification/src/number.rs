//! Whole numbers as text.
use vstd::prelude::*;

use crate::text;

verus! {

/// The character of a decimal digit.
pub open spec fn digit_char(d: nat) -> char {
    ('0' as u32 + d) as char
}

/// A number in decimal, without leading zeros.
pub open spec fn decimal(n: nat) -> Seq<char>
    decreases n,
{
    if n < 10 {
        seq![digit_char(n)]
    } else {
        decimal(n / 10).push(digit_char(n % 10))
    }
}

/// A number in decimal, with a minus sign where it is negative.
pub open spec fn signed_decimal(n: int) -> Seq<char> {
    if n < 0 {
        seq!['-'] + decimal((-n) as nat)
    } else {
        decimal(n as nat)
    }
}

/// `s` is one or more decimal digits.
pub open spec fn is_digits(s: Seq<char>) -> bool {
    s.len() > 0 && forall|i: int| 0 <= i < s.len() ==> '0' <= #[trigger] s[i] <= '9'
}

/// The number that the digits of `s` write in decimal.
pub open spec fn digits_value(s: Seq<char>) -> nat
    decreases s.len(),
{
    if s.len() == 0 {
        0
    } else {
        digits_value(s.drop_last()) * 10 + (s.last() as u32 - '0' as u32) as nat
    }
}

/// `s` without one plus sign at its start.
pub open spec fn without_plus(s: Seq<char>) -> Seq<char> {
    if s.len() > 0 && s[0] == '+' {
        s.skip(1)
    } else {
        s
    }
}

/// The number from 0 to `max` that `s` writes: digits, with at most one plus
/// sign before them.
pub open spec fn unsigned_value(s: Seq<char>, max: nat) -> Option<nat> {
    let digits = without_plus(s);
    if is_digits(digits) && digits_value(digits) <= max {
        Some(digits_value(digits))
    } else {
        None
    }
}

/// The number from `min` to `max` that `s` writes: digits, with at most one
/// sign before them.
pub open spec fn signed_value(s: Seq<char>, min: int, max: int) -> Option<int> {
    if s.len() > 0 && s[0] == '-' {
        let digits = s.skip(1);
        if is_digits(digits) && min <= -digits_value(digits) {
            Some(-digits_value(digits))
        } else {
            None
        }
    } else {
        let digits = without_plus(s);
        if is_digits(digits) && digits_value(digits) <= max {
            Some(digits_value(digits) as int)
        } else {
            None
        }
    }
}

/// Decimal text of a number.
pub fn u64_text(n: u64) -> (r: String)
    ensures
        r@ == decimal(n as nat),
    decreases n,
{
    let digit = (48 + (n % 10) as u8) as char;
    let mut out = if n < 10 {
        String::new()
    } else {
        u64_text(n / 10)
    };
    out.push(digit);
    out
}

/// Decimal text of a signed number.
pub fn i64_text(n: i64) -> (r: String)
    ensures
        r@ == signed_decimal(n as int),
{
    if n < 0 {
        let magnitude: u64 = if n == i64::MIN {
            0x8000_0000_0000_0000
        } else {
            (-n) as u64
        };
        let digits = u64_text(magnitude);
        proof {
            reveal_strlit("-");
        }
        assert("-"@ =~= seq!['-']);
        "-".to_owned().concat(digits.as_str())
    } else {
        u64_text(n as u64)
    }
}

/// The number that the characters from `from` on write in decimal, where they
/// are digits and the number is at most `limit`.
fn digits_up_to(s: &Vec<char>, from: usize, limit: u64) -> (r: Option<u64>)
    requires
        from <= s@.len(),
    ensures
        r == (if is_digits(s@.skip(from as int)) && digits_value(s@.skip(from as int)) <= limit {
            Some(digits_value(s@.skip(from as int)) as u64)
        } else {
            None
        }),
{
    let ghost digits = s@.skip(from as int);
    if from == s.len() {
        return None;
    }
    let mut value: u64 = 0;
    let mut over: bool = false;
    let mut i: usize = from;
    assert(digits.take(0) =~= Seq::empty());
    while i < s.len()
        invariant
            digits == s@.skip(from as int),
            from <= i <= s.len(),
            forall|k: int| 0 <= k < i - from ==> '0' <= #[trigger] digits[k] <= '9',
            over == (digits_value(digits.take(i - from)) > limit),
            !over ==> value == digits_value(digits.take(i - from)),
        decreases s.len() - i,
    {
        let c = s[i];
        assert(c == digits[i - from]);
        if !('0' <= c && c <= '9') {
            return None;
        }
        let digit: u64 = (c as u32 - 48) as u64;
        assert(digits.take(i + 1 - from).drop_last() =~= digits.take(i - from));
        if !over {
            let next: u128 = value as u128 * 10 + digit as u128;
            if next > limit as u128 {
                over = true;
            } else {
                value = next as u64;
            }
        }
        i += 1;
    }
    assert(digits.take(i - from) =~= digits);
    if over {
        None
    } else {
        Some(value)
    }
}

/// The number from `-negative_limit` to `limit` that a text writes.
fn parse_signed(s: &str, negative_limit: u64, limit: u64) -> (r: Option<i128>)
    ensures
        match r {
            Some(n) => signed_value(s@, -(negative_limit as int), limit as int) == Some(n as int),
            None => signed_value(s@, -(negative_limit as int), limit as int) is None,
        },
{
    let all = text::chars_of(s);
    if all.len() > 0 && all[0] == '-' {
        match digits_up_to(&all, 1, negative_limit) {
            Some(value) => Some(-(value as i128)),
            None => None,
        }
    } else {
        let from: usize = if all.len() > 0 && all[0] == '+' {
            1
        } else {
            0
        };
        assert(all@.skip(0) =~= all@);
        match digits_up_to(&all, from, limit) {
            Some(value) => Some(value as i128),
            None => None,
        }
    }
}

/// The `i32` that a text writes.
pub fn parse_i32(s: &str) -> (r: Option<i32>)
    ensures
        match r {
            Some(n) => signed_value(s@, i32::MIN as int, i32::MAX as int) == Some(n as int),
            None => signed_value(s@, i32::MIN as int, i32::MAX as int) is None,
        },
{
    match parse_signed(s, 0x8000_0000, 0x7fff_ffff) {
        Some(n) => Some(n as i32),
        None => None,
    }
}

/// The `i64` that a text writes.
pub fn parse_i64(s: &str) -> (r: Option<i64>)
    ensures
        match r {
            Some(n) => signed_value(s@, i64::MIN as int, i64::MAX as int) == Some(n as int),
            None => signed_value(s@, i64::MIN as int, i64::MAX as int) is None,
        },
{
    match parse_signed(s, 0x8000_0000_0000_0000, 0x7fff_ffff_ffff_ffff) {
        Some(n) => Some(n as i64),
        None => None,
    }
}

/// The digits of a number write that number.
pub proof fn lemma_decimal(n: nat)
    ensures
        is_digits(decimal(n)),
        digits_value(decimal(n)) == n,
    decreases n,
{
    let last = digit_char(n % 10);
    assert('0' <= last <= '9');
    if n < 10 {
        assert(decimal(n).drop_last() =~= Seq::empty());
        assert(digits_value(decimal(n).drop_last()) == 0);
    } else {
        lemma_decimal(n / 10);
        assert(decimal(n).drop_last() =~= decimal(n / 10));
    }
}

/// Reading the decimal text of a number gives back the number.
pub proof fn law_decimal_is_read_back(n: int, min: int, max: int)
    requires
        min <= n <= max,
    ensures
        signed_value(signed_decimal(n), min, max) == Some(n),
{
    if n < 0 {
        lemma_decimal((-n) as nat);
        assert(signed_decimal(n).skip(1) =~= decimal((-n) as nat));
    } else {
        lemma_decimal(n as nat);
        assert('0' <= decimal(n as nat)[0] <= '9');
    }
}

/// What the standard library says of a text that is no `u64`.
pub uninterp spec fn u64_complaint(s: Seq<char>) -> Seq<char>;

/// `str::parse::<u64>` takes digits with at most one plus sign before them, and
/// no number above `u64::MAX`. Of any other text it gives a `ParseIntError`,
/// whose message is a function of the text.
#[verifier::external_body]
pub(crate) fn parse_u64(s: &str) -> (r: Result<u64, String>)
    ensures
        match r {
            Ok(n) => unsigned_value(s@, u64::MAX as nat) == Some(n as nat),
            Err(e) => unsigned_value(s@, u64::MAX as nat) is None && e@ == u64_complaint(s@),
        },
{
    s.parse::<u64>().map_err(|error| error.to_string())
}

/// What the standard library says of a text that is no `u16`.
pub uninterp spec fn u16_complaint(s: Seq<char>) -> Seq<char>;

/// `str::parse::<u16>` takes digits with at most one plus sign before them, and
/// no number above `u16::MAX`. Of any other text it gives a `ParseIntError`,
/// whose message is a function of the text.
#[verifier::external_body]
pub(crate) fn parse_u16(s: &str) -> (r: Result<u16, String>)
    ensures
        match r {
            Ok(n) => unsigned_value(s@, u16::MAX as nat) == Some(n as nat),
            Err(e) => unsigned_value(s@, u16::MAX as nat) is None && e@ == u16_complaint(s@),
        },
{
    s.parse::<u16>().map_err(|error| error.to_string())
}

/// A number is written digit by digit, the last one last, and without zeros before
/// it; a negative one has a sign before it.
pub proof fn law_digits_are_written(n: nat, d: nat)
    requires
        d < 10,
    ensures
        n > 0 ==> decimal(n * 10 + d) == decimal(n) + decimal(d),
        decimal(d).len() == 1,
        n > 0 ==> decimal(n)[0] != '0' && signed_decimal(-(n as int)) == seq!['-'] + decimal(n),
        signed_decimal(n as int) == decimal(n),
        decimal(0) == seq!['0'],
        decimal(1) == seq!['1'],
        decimal(2) == seq!['2'],
        decimal(3) == seq!['3'],
        decimal(4) == seq!['4'],
        decimal(5) == seq!['5'],
        decimal(6) == seq!['6'],
        decimal(7) == seq!['7'],
        decimal(8) == seq!['8'],
        decimal(9) == seq!['9'],
    decreases n,
{
    if n > 0 {
        assert((n * 10 + d) / 10 == n && (n * 10 + d) % 10 == d);
        assert(decimal(n * 10 + d) =~= decimal(n) + decimal(d));
        if n >= 10 {
            law_digits_are_written(n / 10, n % 10);
        }
    }
}

/// A plus sign changes nothing of a number, and a minus sign its sign; what is no
/// digit makes a text no number.
pub proof fn law_sign_is_read(n: nat, max: nat, s: Seq<char>, i: int)
    requires
        n <= max,
    ensures
        signed_value(seq!['+'] + decimal(n), -(max as int), max as int) == Some(n as int),
        signed_value(seq!['-'] + decimal(n), -(max as int), max as int) == Some(-(n as int)),
        unsigned_value(seq!['+'] + decimal(n), max) == Some(n),
        unsigned_value(decimal(n), max) == Some(n),
        unsigned_value(seq!['-'] + decimal(n), max) is None,
        n > 0 ==> unsigned_value(decimal(n), (n - 1) as nat) is None,
        0 < i < s.len() && !('0' <= s[i] <= '9') ==> signed_value(s, -(max as int), max as int) is None
            && unsigned_value(s, max) is None,
        s.len() == 0 ==> signed_value(s, -(max as int), max as int) is None && unsigned_value(
            s,
            max,
        ) is None,
{
    lemma_decimal(n);
    assert((seq!['+'] + decimal(n)).skip(1) =~= decimal(n));
    assert((seq!['-'] + decimal(n)).skip(1) =~= decimal(n));
    assert((seq!['-'] + decimal(n))[0] == '-');
    assert('0' <= decimal(n)[0] <= '9');
    if 0 < i < s.len() && !('0' <= s[i] <= '9') {
        assert(s.skip(1)[i - 1] == s[i]);
    }
}

} // verus!
