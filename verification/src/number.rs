//! Numbers in text: reading them in a base, and writing them in decimal and hexadecimal.
use crate::text::{digit, digit_char, from_digit, is_digit, to_chars, to_digit, upper};
use vstd::prelude::*;

verus! {

// ---------------------------------------------------------------------------
// Reading
// ---------------------------------------------------------------------------
/// What the digits of `s` count for in the base `radix`.
pub open spec fn magnitude(s: Seq<char>, radix: nat) -> nat
    decreases s.len(),
{
    if s.len() == 0 {
        0
    } else {
        magnitude(s.drop_last(), radix) * radix + digit(s.last())
    }
}

/// Every character of `s` is a digit of the base `radix`.
pub open spec fn all_digits(s: Seq<char>, radix: nat) -> bool {
    forall|i: int| 0 <= i < s.len() ==> digit(#[trigger] s[i]) < radix
}

/// `s` without the plus sign that a number may begin with.
pub open spec fn without_sign(s: Seq<char>) -> Seq<char> {
    if s.len() > 0 && s[0] == '+' {
        s.skip(1)
    } else {
        s
    }
}

/// The number that `s` writes in the base `radix`: one digit or more, with a plus sign before them
/// or not, and nothing else; none if it is greater than `max`.
pub open spec fn number(s: Seq<char>, radix: nat, max: nat) -> Option<nat> {
    let digits = without_sign(s);
    if digits.len() > 0 && all_digits(digits, radix) && magnitude(digits, radix) <= max {
        Some(magnitude(digits, radix))
    } else {
        None
    }
}

/// The same result over natural numbers.
pub open spec fn natural(r: Option<u64>) -> Option<nat> {
    match r {
        Some(v) => Some(v as nat),
        None => None,
    }
}

/// More digits never count for less.
proof fn lemma_magnitude_grows(s: Seq<char>, radix: nat, i: int)
    requires
        0 <= i <= s.len(),
        radix > 0,
    ensures
        magnitude(s.take(i), radix) <= magnitude(s, radix),
    decreases s.len(),
{
    if i == s.len() {
        assert(s.take(i) =~= s);
    } else {
        assert(s.drop_last().take(i) =~= s.take(i));
        lemma_magnitude_grows(s.drop_last(), radix, i);
        let m = magnitude(s.drop_last(), radix);
        assert(m <= m * radix) by (nonlinear_arith)
            requires
                radix > 0,
        ;
    }
}

pub fn parse_number(s: &str, radix: u32, max: u64) -> (r: Option<u64>)
    requires
        2 <= radix <= 36,
    ensures
        natural(r) == number(s@, radix as nat, max as nat),
{
    let all: Vec<char> = to_chars(s);
    let n: usize = all.len();
    let start: usize = if n > 0 && all[0] == '+' {
        1
    } else {
        0
    };
    let ghost digits = without_sign(s@);
    assert(digits =~= s@.skip(start as int));
    if start == n {
        return None;
    }
    let mut v: u128 = 0;
    for i in start..n
        invariant
            2 <= radix <= 36,
            start <= n,
            n == all@.len(),
            all@ == s@,
            digits == s@.skip(start as int),
            digits == without_sign(s@),
            v <= max,
            v == magnitude(digits.take(i - start), radix as nat),
            forall|j: int| 0 <= j < i - start ==> digit(#[trigger] digits[j]) < radix,
    {
        let d: u32 = to_digit(all[i]);
        assert(digits[i - start] == all@[i as int]);
        if d >= radix {
            return None;
        }
        assert(digits.take(i - start + 1).drop_last() =~= digits.take(i - start));
        assert(v * radix <= u64::MAX * 36) by (nonlinear_arith)
            requires
                v <= u64::MAX,
                radix <= 36,
        ;
        let w: u128 = v * radix as u128 + d as u128;
        if w > max as u128 {
            proof {
                lemma_magnitude_grows(digits, radix as nat, i - start + 1);
            }
            return None;
        }
        v = w;
    }
    assert(digits.take(n - start) =~= digits);
    Some(v as u64)
}

/// `s` holds decimal digits only (the empty text too).
pub open spec fn only_digits(s: Seq<char>) -> bool {
    forall|i: int| 0 <= i < s.len() ==> is_digit(#[trigger] s[i])
}

pub fn is_only_digits(s: &str) -> (r: bool)
    ensures
        r == only_digits(s@),
{
    let all: Vec<char> = to_chars(s);
    for i in 0..all.len()
        invariant
            all@ == s@,
            forall|j: int| 0 <= j < i ==> is_digit(#[trigger] s@[j]),
    {
        if all[i] < '0' || all[i] > '9' {
            assert(!is_digit(s@[i as int]));
            return false;
        }
    }
    true
}

// ---------------------------------------------------------------------------
// Writing
// ---------------------------------------------------------------------------
/// `n` in decimal, without a leading zero.
pub open spec fn decimal_of(n: nat) -> Seq<char>
    decreases n,
{
    if n < 10 {
        seq![digit_char(n, false)]
    } else {
        decimal_of(n / 10).push(digit_char(n % 10, false))
    }
}

/// `n` in decimal, with a minus sign if it is negative.
pub open spec fn signed_decimal_of(n: int) -> Seq<char> {
    if n < 0 {
        seq!['-'] + decimal_of((-n) as nat)
    } else {
        decimal_of(n as nat)
    }
}

/// The last `width` hexadecimal digits of `n`, zeros in front where it has fewer.
pub open spec fn hex_of(n: nat, width: nat, capital: bool) -> Seq<char>
    decreases width,
{
    if width == 0 {
        Seq::empty()
    } else {
        hex_of(n / 16, (width - 1) as nat, capital).push(digit_char(n % 16, capital))
    }
}

pub fn decimal(n: u64) -> (r: String)
    ensures
        r@ == decimal_of(n as nat),
    decreases n,
{
    if n < 10 {
        let mut r: String = String::new();
        r.push(from_digit(n as u8, false));
        assert(r@ =~= decimal_of(n as nat));
        r
    } else {
        let mut r: String = decimal(n / 10);
        r.push(from_digit((n % 10) as u8, false));
        r
    }
}

pub fn signed_decimal(n: i64) -> (r: String)
    ensures
        r@ == signed_decimal_of(n as int),
{
    if n < 0 {
        let magnitude: u64 = (-(n as i128)) as u64;
        let mut r: String = String::new();
        r.push('-');
        r.append(decimal(magnitude).as_str());
        assert(r@ =~= signed_decimal_of(n as int));
        r
    } else {
        decimal(n as u64)
    }
}

pub fn hex(n: u32, width: usize, capital: bool) -> (r: String)
    ensures
        r@ == hex_of(n as nat, width as nat, capital),
    decreases width,
{
    if width == 0 {
        String::new()
    } else {
        let mut r: String = hex(n / 16, width - 1, capital);
        r.push(from_digit((n % 16) as u8, capital));
        r
    }
}

// ---------------------------------------------------------------------------
// Laws
// ---------------------------------------------------------------------------
/// What `digit_char` writes, `digit` reads.
pub proof fn lemma_digit_char(d: nat, capital: bool)
    requires
        d < 36,
    ensures
        digit(digit_char(d, capital)) == d,
        d < 10 ==> is_digit(digit_char(d, capital)),
        digit_char(d, capital) != '+',
{
}

proof fn lemma_decimal_digits(n: nat)
    ensures
        decimal_of(n).len() > 0,
        only_digits(decimal_of(n)),
        all_digits(decimal_of(n), 10),
        magnitude(decimal_of(n), 10) == n,
    decreases n,
{
    reveal_with_fuel(magnitude, 2);
    lemma_digit_char(n % 10, false);
    if n < 10 {
        assert(decimal_of(n).drop_last() =~= Seq::<char>::empty());
    } else {
        lemma_decimal_digits(n / 10);
        assert(decimal_of(n).drop_last() =~= decimal_of(n / 10));
    }
}

/// Reading a number back from its decimal text gives the number.
pub proof fn decimal_reads_back(n: nat, max: nat)
    requires
        n <= max,
    ensures
        only_digits(decimal_of(n)),
        number(decimal_of(n), 10, max) == Some(n),
{
    lemma_decimal_digits(n);
}

/// Two numbers with the same decimal text are the same number.
pub proof fn decimal_is_unique(a: nat, b: nat)
    requires
        decimal_of(a) == decimal_of(b),
    ensures
        a == b,
{
    lemma_decimal_digits(a);
    lemma_decimal_digits(b);
}

/// How many numbers can be written with `width` digits of the base `radix`.
pub open spec fn numbers_of(width: nat, radix: nat) -> nat
    decreases width,
{
    if width == 0 {
        1
    } else {
        numbers_of((width - 1) as nat, radix) * radix
    }
}

/// A number is written in decimal with no more digits than it needs.
pub proof fn decimal_width(n: nat, width: nat)
    requires
        0 < width,
        n < numbers_of(width, 10),
    ensures
        decimal_of(n).len() <= width,
    decreases n,
{
    if n >= 10 {
        if width == 1 {
            reveal_with_fuel(numbers_of, 2);
        } else {
            decimal_width(n / 10, (width - 1) as nat);
        }
    }
}

/// A hexadecimal text is as wide as was asked, and holds digits only, in the case asked for.
pub proof fn hex_digits(n: nat, width: nat, capital: bool)
    ensures
        hex_of(n, width, capital).len() == width,
        all_digits(hex_of(n, width, capital), 16),
        forall|i: int|
            0 <= i < width ==> (#[trigger] hex_of(n, width, capital)[i] != '+') && hex_of(
                n,
                width,
                capital,
            )[i] != ':' && (capital ==> upper(hex_of(n, width, capital)[i]) == hex_of(
                n,
                width,
                capital,
            )[i]),
    decreases width,
{
    if width > 0 {
        let before = hex_of(n / 16, (width - 1) as nat, capital);
        hex_digits(n / 16, (width - 1) as nat, capital);
        lemma_digit_char(n % 16, capital);
        assert forall|i: int| 0 <= i < width implies digit(
            #[trigger] hex_of(n, width, capital)[i],
        ) < 16 && hex_of(n, width, capital)[i] != '+' && hex_of(n, width, capital)[i] != ':' && (
        capital ==> upper(hex_of(n, width, capital)[i]) == hex_of(n, width, capital)[i]) by {
            if i < width - 1 {
                assert(hex_of(n, width, capital)[i] == before[i]);
            }
        }
    }
}

proof fn lemma_hex_magnitude(n: nat, width: nat, capital: bool)
    requires
        n < numbers_of(width, 16),
    ensures
        magnitude(hex_of(n, width, capital), 16) == n,
    decreases width,
{
    if width > 0 {
        lemma_digit_char(n % 16, capital);
        lemma_hex_magnitude(n / 16, (width - 1) as nat, capital);
        assert(hex_of(n, width, capital).drop_last() =~= hex_of(
            n / 16,
            (width - 1) as nat,
            capital,
        ));
    }
}

/// Reading a number back from its hexadecimal text gives the number, if the text is wide enough.
pub proof fn hex_reads_back(n: nat, width: nat, capital: bool, max: nat)
    requires
        0 < width,
        n < numbers_of(width, 16),
        n <= max,
    ensures
        number(hex_of(n, width, capital), 16, max) == Some(n),
{
    hex_digits(n, width, capital);
    lemma_hex_magnitude(n, width, capital);
    assert(hex_of(n, width, capital)[0] != '+');
}

/// A digit of the base 16, in small letters.
pub open spec fn is_small_hex(c: char) -> bool {
    '0' <= c <= '9' || 'a' <= c <= 'f'
}

/// A digit of the base 16, in capitals.
pub open spec fn is_capital_hex(c: char) -> bool {
    '0' <= c <= '9' || 'A' <= c <= 'F'
}

/// The digits of a hexadecimal text are in the case asked for.
pub proof fn hex_is_in_its_case(n: nat, width: nat, capital: bool)
    ensures
        hex_of(n, width, capital).len() == width,
        forall|i: int|
            0 <= i < width ==> if capital {
                is_capital_hex(#[trigger] hex_of(n, width, capital)[i])
            } else {
                is_small_hex(hex_of(n, width, capital)[i])
            },
    decreases width,
{
    if width > 0 {
        hex_is_in_its_case(n / 16, (width - 1) as nat, capital);
        let before = hex_of(n / 16, (width - 1) as nat, capital);
        assert forall|i: int| 0 <= i < width implies if capital {
            is_capital_hex(#[trigger] hex_of(n, width, capital)[i])
        } else {
            is_small_hex(hex_of(n, width, capital)[i])
        } by {
            if i < width - 1 {
                assert(hex_of(n, width, capital)[i] == before[i]);
            }
        }
    }
}

/// A number has one hexadecimal text of each width in small letters: a text of such digits is the
/// text of the number that it writes.
pub proof fn small_hex_is_unique(digits: Seq<char>)
    requires
        forall|i: int| 0 <= i < digits.len() ==> is_small_hex(#[trigger] digits[i]),
    ensures
        hex_of(magnitude(digits, 16), digits.len(), false) == digits,
    decreases digits.len(),
{
    if digits.len() > 0 {
        let front = digits.drop_last();
        assert forall|i: int| 0 <= i < front.len() implies is_small_hex(#[trigger] front[i]) by {
            assert(front[i] == digits[i]);
        }
        small_hex_is_unique(front);
        let c = digits[digits.len() - 1];
        assert(is_small_hex(c));
        let m = magnitude(front, 16);
        assert(magnitude(digits, 16) == m * 16 + digit(c));
        assert((m * 16 + digit(c)) / 16 == m);
        assert((m * 16 + digit(c)) % 16 == digit(c));
        assert(digit_char(digit(c), false) == c);
        assert(front.push(c) =~= digits);
    } else {
        assert(hex_of(0, 0, false) =~= digits);
    }
}

/// A number is read by its digits alone: one more digit counts for itself, and makes those before
/// it count for as many times as the base says.
pub proof fn digits_count_by_their_place(s: Seq<char>, c: char, radix: nat, max: nat)
    requires
        2 <= radix <= 36,
        number(s, radix, max) is Some,
        digit(c) < radix,
        (number(s, radix, max)->0) * radix + digit(c) <= max,
    ensures
        number(s.push(c), radix, max) == Some((number(s, radix, max)->0) * radix + digit(c)),
{
    let digits = without_sign(s);
    assert(without_sign(s.push(c)) =~= digits.push(c)) by {
        if s.len() > 0 && s[0] == '+' {
            assert(s.push(c).skip(1) =~= s.skip(1).push(c));
        }
    }
    assert(digits.push(c).drop_last() =~= digits);
    assert forall|i: int| 0 <= i < digits.push(c).len() implies digit(
        #[trigger] digits.push(c)[i],
    ) < radix by {
        if i < digits.len() {
            assert(digits.push(c)[i] == digits[i]);
        }
    }
}

/// `digits` are the decimal text of `n`: digits only, which count for it, and no zero in front of
/// other digits.
pub open spec fn counts_for(digits: Seq<char>, n: int) -> bool {
    &&& digits.len() > 0
    &&& digits.len() > 1 ==> digits[0] != '0'
    &&& forall|i: int| 0 <= i < digits.len() ==> '0' <= #[trigger] digits[i] <= '9'
    &&& magnitude(digits, 10) == n
}

/// `text` is the decimal text of `n`, with a minus sign before its digits if it is negative.
pub open spec fn is_decimal(text: Seq<char>, n: int) -> bool {
    if n < 0 {
        text.len() > 0 && text[0] == '-' && counts_for(text.skip(1), -n)
    } else {
        counts_for(text, n)
    }
}

proof fn lemma_no_zero_in_front(n: nat)
    ensures
        n > 0 ==> decimal_of(n)[0] != '0',
        decimal_of(n).len() > 1 ==> decimal_of(n)[0] != '0',
    decreases n,
{
    if n >= 10 {
        lemma_no_zero_in_front(n / 10);
        lemma_decimal_digits(n / 10);
        assert(decimal_of(n)[0] == decimal_of(n / 10)[0]);
    }
}

/// A number is written as its decimal text.
pub proof fn numbers_are_written_in_decimal(n: int)
    ensures
        is_decimal(signed_decimal_of(n), n),
        n >= 0 ==> is_decimal(decimal_of(n as nat), n),
{
    let size = (if n < 0 {
        -n
    } else {
        n
    }) as nat;
    let digits = decimal_of(size);
    lemma_decimal_digits(size);
    lemma_no_zero_in_front(size);
    assert forall|i: int| 0 <= i < digits.len() implies '0' <= #[trigger] digits[i] <= '9' by {
        assert(is_digit(digits[i]));
    }
    if n < 0 {
        assert(signed_decimal_of(n).skip(1) =~= digits);
    }
}

/// What is no number: nothing at all, a sign alone, and what holds anything but digits behind the
/// sign that may stand before them. A number that is read is never greater than was asked for.
pub proof fn other_texts_are_no_numbers(s: Seq<char>, radix: nat, max: nat, i: int)
    requires
        radix <= 36,
    ensures
        number(s, radix, max) matches Some(n) ==> {
            &&& n <= max
            &&& s.len() > 0
            &&& s[0] == '+' ==> s.len() > 1
            &&& 0 < i < s.len() ==> digit(s[i]) < radix
            &&& s[0] != '+' ==> digit(s[0]) < radix
        },
{
    let digits = without_sign(s);
    if number(s, radix, max) is Some {
        if s[0] == '+' {
            if 0 < i < s.len() {
                assert(digits[i - 1] == s[i]);
            }
        } else {
            assert(digits[0] == s[0]);
            if 0 < i < s.len() {
                assert(digits[i] == s[i]);
            }
        }
    }
}

/// What is said of a number that was read is that number.
pub proof fn numbers_are_seen_as_they_are(n: u64)
    ensures
        natural(Some(n)) == Some(n as nat),
        natural(None) is None,
{
}

} // verus!
