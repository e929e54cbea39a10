//! Amounts of money, in cents: rounding to five cents, and decimal text.

use vstd::prelude::*;
use vstd::slice::*;
use vstd::string::*;

verus! {

/// The multiple of five cents nearest to `number` hundredths of a cent; a
/// number half way between two of them goes to the larger.
pub open spec fn nearest_nickel(number: nat) -> nat {
    5 * ((number + 250) / 500)
}

/// `nearest_nickel(number)` is a whole number of five-cent pieces, and no
/// more than two and a half cents away from `number`; where `number` is that
/// far from two of them, it is the larger.
pub proof fn lemma_nearest_nickel(number: nat)
    ensures
        nearest_nickel(number) % 5 == 0,
        100 * nearest_nickel(number) - 250 <= number < 100 * nearest_nickel(number) + 250,
{
}

/// Rounds `number`, an amount in hundredths of a cent, to the nearest five
/// cents. The result is in cents.
pub fn round_numbers(number: u128) -> (cents: u128)
    ensures
        cents == nearest_nickel(number as nat),
        cents % 5 == 0,
        100 * cents - 250 <= number < 100 * cents + 250,
{
    let nickels: u128 = number / 500;
    if number % 500 >= 250 {
        5 * (nickels + 1)
    } else {
        5 * nickels
    }
}

/// The character that writes the digit `d`.
pub open spec fn digit_char(d: nat) -> char
    recommends
        d < 10,
{
    ('0' as nat + d) as char
}

/// `n` in decimal notation, without leading zeros.
pub open spec fn decimal(n: nat) -> Seq<char>
    decreases n,
{
    if n < 10 {
        seq![digit_char(n)]
    } else {
        decimal(n / 10).push(digit_char(n % 10))
    }
}

/// An amount of `cents` as text: the whole units, a point, and two digits.
pub open spec fn amount_text(cents: nat) -> Seq<char> {
    decimal(cents / 100) + seq!['.', digit_char(cents / 10 % 10), digit_char(cents % 10)]
}

/// The text of one digit.
fn digit_str(d: u8) -> (s: &'static str)
    requires
        d < 10,
    ensures
        s@ == seq![digit_char(d as nat)],
{
    proof {
        reveal_strlit("0");
        reveal_strlit("1");
        reveal_strlit("2");
        reveal_strlit("3");
        reveal_strlit("4");
        reveal_strlit("5");
        reveal_strlit("6");
        reveal_strlit("7");
        reveal_strlit("8");
        reveal_strlit("9");
    }
    let s = match d {
        0 => "0",
        1 => "1",
        2 => "2",
        3 => "3",
        4 => "4",
        5 => "5",
        6 => "6",
        7 => "7",
        8 => "8",
        _ => "9",
    };
    assert(s@ =~= seq![digit_char(d as nat)]);
    s
}

/// Appends `n` in decimal notation to `out`.
fn push_decimal(out: &mut String, n: u128)
    ensures
        final(out)@ == old(out)@ + decimal(n as nat),
    decreases n,
{
    if n >= 10 {
        push_decimal(out, n / 10);
    }
    out.append(digit_str((n % 10) as u8));
    assert(out@ =~= old(out)@ + decimal(n as nat));
}

/// Writes an amount of `cents` with exactly two decimal places.
pub fn format_amount(cents: u128) -> (s: String)
    ensures
        s@ == amount_text(cents as nat),
{
    let mut s = String::new();
    push_decimal(&mut s, cents / 100);
    s.append(".");
    s.append(digit_str((cents / 10 % 10) as u8));
    s.append(digit_str((cents % 10) as u8));
    proof {
        reveal_strlit(".");
        assert(s@ =~= amount_text(cents as nat));
    }
    s
}

/// Whether `c` is one of the ten decimal digits.
pub open spec fn is_digit(c: char) -> bool {
    '0' <= c && c <= '9'
}

/// The number that the digit `c` stands for.
pub open spec fn digit_value(c: char) -> nat
    recommends
        is_digit(c),
{
    (c as nat - '0' as nat) as nat
}

/// Whether `s` holds digits only.
pub open spec fn all_digits(s: Seq<char>) -> bool {
    forall|i: int| 0 <= i < s.len() ==> is_digit(#[trigger] s[i])
}

/// The number that the digits `s` write in decimal notation; 0 for no digits.
pub open spec fn digits_value(s: Seq<char>) -> nat
    decreases s.len(),
{
    if s.len() == 0 {
        0
    } else {
        10 * digits_value(s.drop_last()) + digit_value(s.last())
    }
}

/// How many digits `s` begins with.
pub open spec fn digit_run(s: Seq<char>) -> nat
    decreases s.len(),
{
    if s.len() > 0 && is_digit(s[0]) {
        1 + digit_run(s.drop_first())
    } else {
        0
    }
}

/// What up to two digits after the point are worth, in cents.
pub open spec fn fraction_cents(frac: Seq<char>) -> nat
    recommends
        frac.len() <= 2,
        all_digits(frac),
{
    if frac.len() == 0 {
        0
    } else if frac.len() == 1 {
        10 * digit_value(frac[0])
    } else {
        10 * digit_value(frac[0]) + digit_value(frac[1])
    }
}

/// The cents that an unsigned decimal number writes: digits, then optionally
/// a point and at most two more digits, with a digit on at least one side of
/// the point. `None` for any other text.
pub open spec fn unsigned_cents(body: Seq<char>) -> Option<nat> {
    let k = digit_run(body) as int;
    let whole = body.take(k);
    if k == body.len() {
        if k > 0 {
            Some(100 * digits_value(whole))
        } else {
            None
        }
    } else {
        let frac = body.skip(k + 1);
        if body[k] == '.' && all_digits(frac) && frac.len() <= 2 && k + frac.len() > 0 {
            Some(100 * digits_value(whole) + fraction_cents(frac))
        } else {
            None
        }
    }
}

/// The cents that a decimal number writes, which may begin with one sign,
/// `+` or `-`. `None` for any other text.
pub open spec fn amount_of(text: Seq<char>) -> Option<int> {
    if text.len() > 0 && text[0] == '-' {
        match unsigned_cents(text.skip(1)) {
            Some(cents) => Some(-(cents as int)),
            None => None,
        }
    } else if text.len() > 0 && text[0] == '+' {
        match unsigned_cents(text.skip(1)) {
            Some(cents) => Some(cents as int),
            None => None,
        }
    } else {
        match unsigned_cents(text) {
            Some(cents) => Some(cents as int),
            None => None,
        }
    }
}

/// The largest number of cents, in either direction, that `parse_amount`
/// returns.
pub const MAX_CENTS: i64 = i64::MAX;

/// The amount that `text` writes, where it writes one of at most `MAX_CENTS`
/// cents in either direction.
pub open spec fn readable_amount(text: Seq<char>) -> Option<i64> {
    match amount_of(text) {
        Some(cents) => if -MAX_CENTS <= cents <= MAX_CENTS {
            Some(cents as i64)
        } else {
            None
        },
        None => None,
    }
}

/// The largest whole part of an amount of at most `MAX_CENTS` cents.
const MAX_WHOLE: u64 = 92_233_720_368_547_758;

/// `digit_run(s)` is `k` where the first `k` characters of `s` are digits and
/// the next one, if there is one, is not.
proof fn lemma_digit_run(s: Seq<char>, k: int)
    requires
        0 <= k <= s.len(),
        all_digits(s.take(k)),
        k < s.len() ==> !is_digit(s[k]),
    ensures
        digit_run(s) == k,
    decreases k,
{
    if k > 0 {
        let rest = s.drop_first();
        assert(is_digit(s.take(k)[0]));
        assert forall|i: int| 0 <= i < k - 1 implies is_digit(#[trigger] rest.take(k - 1)[i]) by {
            assert(rest.take(k - 1)[i] == s.take(k)[i + 1]);
        }
        lemma_digit_run(rest, k - 1);
    }
}

/// More digits never write a smaller number.
proof fn lemma_digits_value_grows(s: Seq<char>, i: int)
    requires
        0 <= i <= s.len(),
    ensures
        digits_value(s.take(i)) <= digits_value(s),
    decreases s.len() - i,
{
    if i == s.len() {
        assert(s.take(i) =~= s);
    } else {
        assert(s.drop_last().take(i) =~= s.take(i));
        lemma_digits_value_grows(s.drop_last(), i);
    }
}

/// The decimal notation of a number holds digits only, at least one, and
/// writes that number.
pub proof fn lemma_decimal_reads_back(n: nat)
    ensures
        decimal(n).len() >= 1,
        all_digits(decimal(n)),
        digits_value(decimal(n)) == n,
    decreases n,
{
    if n < 10 {
        assert(decimal(n).drop_last() =~= Seq::<char>::empty());
        assert(digits_value(decimal(n).drop_last()) == 0);
    } else {
        lemma_decimal_reads_back(n / 10);
        assert(decimal(n).drop_last() =~= decimal(n / 10));
    }
}

/// The text of an amount reads back as that amount.
pub proof fn lemma_amount_text_reads_back(cents: nat)
    ensures
        amount_of(amount_text(cents)) == Some(cents as int),
{
    let whole = decimal(cents / 100);
    let text = amount_text(cents);
    let k = whole.len() as int;
    lemma_decimal_reads_back(cents / 100);
    assert(text.take(k) =~= whole);
    assert(text[k] == '.');
    lemma_digit_run(text, k);
    assert(text.skip(k + 1) =~= seq![digit_char(cents / 10 % 10), digit_char(cents % 10)]);
    assert(fraction_cents(text.skip(k + 1)) == cents % 100);
    assert(unsigned_cents(text) == Some(cents));
    assert(is_digit(text.take(k)[0]));
}

fn is_digit_char(c: char) -> (b: bool)
    ensures
        b == is_digit(c),
{
    '0' <= c && c <= '9'
}

fn digit_of(c: char) -> (d: u64)
    requires
        is_digit(c),
    ensures
        d == digit_value(c),
{
    (c as u64) - ('0' as u64)
}

/// Counts the digits that `text` begins with.
fn count_digits(text: &[char]) -> (k: usize)
    ensures
        k == digit_run(text@),
        k <= text@.len(),
        all_digits(text@.take(k as int)),
{
    let mut k: usize = 0;
    while k < text.len() && is_digit_char(text[k])
        invariant
            k <= text@.len(),
            all_digits(text@.take(k as int)),
        decreases text@.len() - k,
    {
        k += 1;
    }
    proof {
        lemma_digit_run(text@, k as int);
    }
    k
}

/// Reads a run of digits as a number, up to `MAX_WHOLE`.
fn read_digits(digits: &[char]) -> (r: Option<u64>)
    requires
        all_digits(digits@),
    ensures
        r == if digits_value(digits@) <= MAX_WHOLE {
            Some(digits_value(digits@) as u64)
        } else {
            None
        },
{
    let mut value: u64 = 0;
    let mut i: usize = 0;
    while i < digits.len()
        invariant
            i <= digits@.len(),
            all_digits(digits@),
            value == digits_value(digits@.take(i as int)),
            value <= MAX_WHOLE,
        decreases digits@.len() - i,
    {
        let d = digit_of(digits[i]);
        let next: u64 = value * 10 + d;
        proof {
            let read = digits@.take(i + 1);
            assert(read.drop_last() =~= digits@.take(i as int));
            assert(read.last() == digits@[i as int]);
            assert(next == digits_value(read));
        }
        if next > MAX_WHOLE {
            proof {
                lemma_digits_value_grows(digits@, i + 1);
            }
            return None;
        }
        value = next;
        i += 1;
    }
    assert(digits@.take(i as int) =~= digits@);
    Some(value)
}

/// Reads an unsigned decimal number of at most `MAX_CENTS` cents.
fn parse_unsigned(body: &[char]) -> (r: Option<u64>)
    ensures
        r == match unsigned_cents(body@) {
            Some(cents) => if cents <= MAX_CENTS {
                Some(cents as u64)
            } else {
                None
            },
            None => None,
        },
{
    let n = body.len();
    let k = count_digits(body);
    let whole = slice_subrange(body, 0, k);
    assert(whole@ =~= body@.take(k as int));
    let mut cents: u64 = 0;
    if k < n {
        let after_point: usize = n - k - 1;
        if body[k] != '.' || after_point > 2 || k + after_point == 0 {
            return None;
        }
        let frac = slice_subrange(body, k + 1, n);
        assert(frac@ =~= body@.skip(k + 1));
        if frac.len() >= 1 {
            if !is_digit_char(frac[0]) {
                return None;
            }
            cents = 10 * digit_of(frac[0]);
        }
        if frac.len() == 2 {
            if !is_digit_char(frac[1]) {
                return None;
            }
            cents = cents + digit_of(frac[1]);
        }
    } else if k == 0 {
        return None;
    }
    match read_digits(whole) {
        Some(units) => {
            let total: u64 = units * 100 + cents;
            if total > MAX_CENTS as u64 {
                None
            } else {
                Some(total)
            }
        },
        None => None,
    }
}

/// Reads a decimal amount: an optional sign, digits, and optionally a point
/// with at most two digits after it. Returns the amount in cents; `None`
/// where `text` is no such number or writes more than `MAX_CENTS` cents.
pub fn parse_amount(text: &[char]) -> (r: Option<i64>)
    ensures
        r == readable_amount(text@),
{
    let n = text.len();
    if n > 0 && (text[0] == '-' || text[0] == '+') {
        let body = slice_subrange(text, 1, n);
        assert(body@ =~= text@.skip(1));
        match parse_unsigned(body) {
            Some(cents) => if text[0] == '-' {
                Some(-(cents as i64))
            } else {
                Some(cents as i64)
            },
            None => None,
        }
    } else {
        match parse_unsigned(text) {
            Some(cents) => Some(cents as i64),
            None => None,
        }
    }
}

} // verus!
