//! Numbers as text: reading and writing them in decimal and in hexadecimal.
use vstd::arithmetic::div_mod::{lemma_div_decreases, lemma_fundamental_div_mod};
use vstd::prelude::*;

use crate::text::chars_of;

verus! {

/// Why a text is no number.
#[derive(Clone, Copy, Debug, PartialEq, Eq, Structural)]
pub enum NumberError {
    /// There is nothing to read.
    Empty,
    /// A character is no digit of the radix.
    InvalidDigit,
    /// The number is larger than a `u64`.
    TooLarge,
}

/// What a digit character stands for; 16 for a character that is no digit at all.
pub open spec fn char_value(c: char) -> nat {
    if '0' <= c <= '9' {
        (c as int - '0' as int) as nat
    } else if 'a' <= c <= 'f' {
        (c as int - 'a' as int + 10) as nat
    } else if 'A' <= c <= 'F' {
        (c as int - 'A' as int + 10) as nat
    } else {
        16
    }
}

/// Whether `c` is a digit of the radix.
pub open spec fn is_digit(c: char, radix: nat) -> bool {
    char_value(c) < radix
}

/// Whether every character of `s` is a digit of the radix.
pub open spec fn all_digits(s: Seq<char>, radix: nat) -> bool {
    forall|i: int| 0 <= i < s.len() ==> is_digit(#[trigger] s[i], radix)
}

/// The number that a row of digits stands for, the last digit counting ones.
pub open spec fn digits_value(s: Seq<char>, radix: nat) -> nat
    decreases s.len(),
{
    if s.len() == 0 {
        0
    } else {
        digits_value(s.drop_last(), radix) * radix + char_value(s.last())
    }
}

/// `s` without one leading plus sign.
pub open spec fn unsigned_part(s: Seq<char>) -> Seq<char> {
    if s.len() > 0 && s[0] == '+' {
        s.skip(1)
    } else {
        s
    }
}

/// Whether reading `s` from the left meets a character that is no digit while the number
/// read up to there still fits a `u64`.
pub open spec fn meets_invalid_digit(s: Seq<char>, radix: nat) -> bool {
    exists|i: int|
        0 <= i < s.len() && !is_digit(#[trigger] s[i], radix) && all_digits(s.take(i), radix)
            && digits_value(s.take(i), radix) <= u64::MAX
}

/// What `s` says as a number: an optional plus sign and at least one digit, nothing else.
pub open spec fn number_of(s: Seq<char>, radix: nat) -> Result<u64, NumberError> {
    let digits = unsigned_part(s);
    if s.len() == 0 {
        Err(NumberError::Empty)
    } else if digits.len() == 0 || meets_invalid_digit(digits, radix) {
        Err(NumberError::InvalidDigit)
    } else if digits_value(digits, radix) > u64::MAX {
        Err(NumberError::TooLarge)
    } else {
        Ok(digits_value(digits, radix) as u64)
    }
}

/// The number in `s`, or nothing.
pub open spec fn number_or_none(s: Seq<char>, radix: nat) -> Option<u64> {
    match number_of(s, radix) {
        Ok(n) => Some(n),
        Err(_) => None,
    }
}

/// `s` without every `0x` that it starts with.
pub open spec fn without_hex_prefix(s: Seq<char>) -> Seq<char>
    decreases s.len(),
{
    if s.len() >= 2 && s[0] == '0' && s[1] == 'x' {
        without_hex_prefix(s.skip(2))
    } else {
        s
    }
}

/// The digit character of a value below 16.
pub open spec fn digit_char(d: nat) -> char {
    if d < 10 {
        (('0' as u8) + d) as u8 as char
    } else {
        (('a' as u8) + (d - 10)) as u8 as char
    }
}

/// `n` written in the radix, without leading zeros.
pub open spec fn digits_of(n: nat, radix: nat) -> Seq<char>
    decreases n,
    when radix >= 2
{
    if n < radix {
        seq![digit_char(n)]
    } else {
        proof {
            lemma_div_decreases(n as int, radix as int);
        }
        digits_of(n / radix, radix).push(digit_char(n % radix))
    }
}

/// `n` in decimal.
pub open spec fn decimal(n: nat) -> Seq<char> {
    digits_of(n, 10)
}

/// `n` in hexadecimal, in lower case, behind `0x`.
pub open spec fn hex(n: nat) -> Seq<char> {
    "0x"@ + digits_of(n, 16)
}

/// `n` in decimal, with zeros in front up to three digits.
pub open spec fn three_digits(n: nat) -> Seq<char> {
    let d = decimal(n);
    if d.len() >= 3 {
        d
    } else {
        Seq::new((3 - d.len()) as nat, |i: int| '0') + d
    }
}

/// The text that names a [`NumberError`].
pub open spec fn number_error_text(e: NumberError) -> Seq<char> {
    match e {
        NumberError::Empty => "cannot parse integer from empty string"@,
        NumberError::InvalidDigit => "invalid digit found in string"@,
        NumberError::TooLarge => "number too large to fit in target type"@,
    }
}

impl NumberError {
    /// The error in words.
    pub fn message(&self) -> (text: String)
        ensures
            text@ == number_error_text(*self),
    {
        match self {
            NumberError::Empty => "cannot parse integer from empty string".to_owned(),
            NumberError::InvalidDigit => "invalid digit found in string".to_owned(),
            NumberError::TooLarge => "number too large to fit in target type".to_owned(),
        }
    }
}

/// What a digit character stands for; 16 for a character that is no digit at all.
pub fn char_digit(c: char) -> (d: u64)
    ensures
        d == char_value(c),
        d <= 16,
{
    if '0' <= c && c <= '9' {
        c as u64 - '0' as u64
    } else if 'a' <= c && c <= 'f' {
        c as u64 - 'a' as u64 + 10
    } else if 'A' <= c && c <= 'F' {
        c as u64 - 'A' as u64 + 10
    } else {
        16
    }
}

/// A prefix of a row of digits stands for no more than the whole row.
proof fn lemma_prefix_value(s: Seq<char>, i: int, radix: nat)
    requires
        0 <= i <= s.len(),
        radix >= 2,
    ensures
        digits_value(s.take(i), radix) <= digits_value(s, radix),
    decreases s.len(),
{
    if i == s.len() {
        assert(s.take(i) =~= s);
    } else {
        lemma_prefix_value(s.drop_last(), i, radix);
        assert(s.drop_last().take(i) =~= s.take(i));
        let d = digits_value(s.drop_last(), radix);
        assert(d * radix >= d) by (nonlinear_arith)
            requires
                radix >= 2,
        ;
    }
}

/// Where the number of the digits before a place is too large, no character from there on
/// counts.
proof fn lemma_overflow_decides(s: Seq<char>, i: int, radix: nat)
    requires
        0 <= i <= s.len(),
        radix >= 2,
        all_digits(s.take(i), radix),
        digits_value(s.take(i), radix) > u64::MAX,
    ensures
        !meets_invalid_digit(s, radix),
        digits_value(s, radix) > u64::MAX,
{
    lemma_prefix_value(s, i, radix);
    assert forall|j: int|
        0 <= j < s.len() && !is_digit(#[trigger] s[j], radix) && all_digits(
            s.take(j),
            radix,
        ) implies digits_value(s.take(j), radix) > u64::MAX by {
        if j < i {
            assert(s.take(i)[j] == s[j]);
        } else {
            lemma_prefix_value(s.take(j), i, radix);
            assert(s.take(j).take(i) =~= s.take(i));
        }
    }
}

/// Reads a number from `chars`, from the place `from` on, where at least one character
/// stands: digits of the radix and nothing else.
fn read_digits(chars: &Vec<char>, from: usize, radix: u64) -> (r: Result<u64, NumberError>)
    requires
        from < chars.len(),
        2 <= radix <= 16,
    ensures
        ({
            let digits = chars@.skip(from as int);
            r == if meets_invalid_digit(digits, radix as nat) {
                Err::<u64, NumberError>(NumberError::InvalidDigit)
            } else if digits_value(digits, radix as nat) > u64::MAX {
                Err(NumberError::TooLarge)
            } else {
                Ok(digits_value(digits, radix as nat) as u64)
            }
        }),
{
    let ghost digits = chars@.skip(from as int);
    let mut value: u64 = 0;
    let mut i: usize = from;
    while i < chars.len()
        invariant
            from <= i <= chars.len(),
            2 <= radix <= 16,
            digits == chars@.skip(from as int),
            all_digits(digits.take(i - from), radix as nat),
            value == digits_value(digits.take(i - from), radix as nat),
        decreases chars.len() - i,
    {
        let d = char_digit(chars[i]);
        let ghost k = i - from;
        assert(digits[k] == chars@[i as int]);
        if d >= radix {
            assert(!is_digit(digits[k], radix as nat));
            return Err(NumberError::InvalidDigit);
        }
        assert(digits.take(k + 1).drop_last() =~= digits.take(k));
        assert(digits.take(k + 1).last() == digits[k]);
        assert(all_digits(digits.take(k + 1), radix as nat)) by {
            assert forall|j: int| 0 <= j < k + 1 implies is_digit(
                #[trigger] digits.take(k + 1)[j],
                radix as nat,
            ) by {
                if j < k {
                    assert(digits.take(k + 1)[j] == digits.take(k)[j]);
                }
            }
        }
        let ghost next = digits_value(digits.take(k + 1), radix as nat);
        assert(next == value * radix + d);
        match value.checked_mul(radix) {
            None => {
                proof {
                    lemma_overflow_decides(digits, k + 1, radix as nat);
                }
                return Err(NumberError::TooLarge);
            },
            Some(scaled) => {
                if scaled > u64::MAX - d {
                    proof {
                        lemma_overflow_decides(digits, k + 1, radix as nat);
                    }
                    return Err(NumberError::TooLarge);
                }
                value = scaled + d;
            },
        }
        i = i + 1;
    }
    assert(digits.take(digits.len() as int) =~= digits);
    assert(!meets_invalid_digit(digits, radix as nat));
    Ok(value)
}

/// Reads a number, as [`number_of`] says.
pub fn parse_number(s: &str, radix: u64) -> (r: Result<u64, NumberError>)
    requires
        2 <= radix <= 16,
    ensures
        r == number_of(s@, radix as nat),
{
    let chars = chars_of(s);
    if chars.len() == 0 {
        return Err(NumberError::Empty);
    }
    let from: usize = if chars[0] == '+' {
        1
    } else {
        0
    };
    assert(s@.skip(0) =~= s@);
    if from == chars.len() {
        return Err(NumberError::InvalidDigit);
    }
    read_digits(&chars, from, radix)
}

/// The number that a decimal text holds, or nothing.
pub fn decimal_to_u64(s: &str) -> (r: Option<u64>)
    ensures
        r == number_or_none(s@, 10),
{
    match parse_number(s, 10) {
        Ok(n) => Some(n),
        Err(_) => None,
    }
}

/// The number that a hexadecimal text holds, with or without `0x` in front, or nothing.
pub fn hex_to_u64(value: &str) -> (r: Option<u64>)
    ensures
        r == number_or_none(without_hex_prefix(value@), 16),
{
    let chars = chars_of(value);
    let mut start: usize = 0;
    assert(value@.skip(0) =~= value@);
    while start < chars.len() && chars.len() - start >= 2 && chars[start] == '0' && chars[start + 1]
        == 'x'
        invariant
            start <= chars.len(),
            chars@ == value@,
            without_hex_prefix(value@) == without_hex_prefix(value@.skip(start as int)),
        decreases chars.len() - start,
    {
        assert(value@.skip(start as int).skip(2) =~= value@.skip(start + 2));
        start = start + 2;
    }
    match parse_number(value.substring_char(start, chars.len()), 16) {
        Ok(n) => {
            assert(value@.subrange(start as int, value@.len() as int) =~= value@.skip(
                start as int,
            ));
            Some(n)
        },
        Err(_) => {
            assert(value@.subrange(start as int, value@.len() as int) =~= value@.skip(
                start as int,
            ));
            None
        },
    }
}

/// The digit character of a value below 16.
fn write_digit(d: u64) -> (c: char)
    requires
        d < 16,
    ensures
        c == digit_char(d as nat),
{
    if d < 10 {
        ('0' as u8 + d as u8) as char
    } else {
        ('a' as u8 + (d as u8 - 10)) as char
    }
}

/// `n` written in the radix.
fn write_digits(n: u64, radix: u64) -> (s: String)
    requires
        2 <= radix <= 16,
    ensures
        s@ == digits_of(n as nat, radix as nat),
{
    let mut back: Vec<char> = Vec::new();
    let mut rest: u64 = n;
    while rest >= radix
        invariant
            2 <= radix <= 16,
            digits_of(n as nat, radix as nat) == digits_of(rest as nat, radix as nat)
                + back@.reverse(),
        decreases rest,
    {
        proof {
            lemma_div_decreases(rest as int, radix as int);
        }
        let ghost before = back@;
        back.push(write_digit(rest % radix));
        assert(digits_of((rest / radix) as nat, radix as nat) + back@.reverse() =~= digits_of(
            rest as nat,
            radix as nat,
        ) + before.reverse());
        rest = rest / radix;
    }
    let ghost before = back@;
    back.push(write_digit(rest));
    assert(back@.reverse() =~= digits_of(rest as nat, radix as nat) + before.reverse());
    let mut s = String::new();
    let mut i: usize = back.len();
    while i > 0
        invariant
            i <= back.len(),
            s@ == back@.reverse().take(back.len() - i),
        decreases i,
    {
        i = i - 1;
        s.push(back[i]);
        assert(s@ =~= back@.reverse().take(back.len() - i));
    }
    assert(back@.reverse().take(back.len() as int) =~= back@.reverse());
    s
}

/// `n` in decimal.
pub fn decimal_text(n: u64) -> (s: String)
    ensures
        s@ == decimal(n as nat),
{
    write_digits(n, 10)
}

/// `n` in hexadecimal, in lower case, behind `0x`.
pub fn hex_text(n: u64) -> (s: String)
    ensures
        s@ == hex(n as nat),
{
    let mut s = "0x".to_owned();
    s.append(write_digits(n, 16).as_str());
    s
}

/// `n` in decimal, with zeros in front up to three digits.
pub fn three_digit_text(n: u32) -> (s: String)
    ensures
        s@ == three_digits(n as nat),
{
    let digits = write_digits(n as u64, 10);
    let len = digits.as_str().unicode_len();
    let mut s = String::new();
    let mut i: usize = len;
    while i < 3
        invariant
            len == decimal(n as nat).len(),
            i == len + s@.len(),
            i <= 3 || s@.len() == 0,
            forall|k: int| 0 <= k < s@.len() ==> s@[k] == '0',
        decreases 3 - i,
    {
        s.push('0');
        i = i + 1;
    }
    s.append(digits.as_str());
    assert(s@ =~= three_digits(n as nat));
    s
}

/// The digits of `n` stand for `n`.
pub proof fn digits_stand_for_number(n: nat, radix: nat)
    requires
        2 <= radix <= 16,
    ensures
        digits_of(n, radix).len() >= 1,
        all_digits(digits_of(n, radix), radix),
        digits_value(digits_of(n, radix), radix) == n,
    decreases n,
{
    let s = digits_of(n, radix);
    if n < radix {
        assert(s.drop_last() =~= Seq::<char>::empty());
        assert(digits_value(s.drop_last(), radix) == 0);
        assert(0 * radix == 0) by (nonlinear_arith);
        assert(char_value(digit_char(n)) == n);
    } else {
        lemma_div_decreases(n as int, radix as int);
        lemma_fundamental_div_mod(n as int, radix as int);
        digits_stand_for_number(n / radix, radix);
        assert(s.drop_last() =~= digits_of(n / radix, radix));
        assert(radix * (n / radix) == (n / radix) * radix) by (nonlinear_arith);
        assert(0 <= n % radix < radix) by (nonlinear_arith)
            requires
                radix > 0,
        ;
        assert(char_value(digit_char(n % radix)) == n % radix);
    }
}

/// Reading back what was written gives the number that was written.
pub proof fn written_number_reads_back(n: u64, radix: nat)
    requires
        2 <= radix <= 16,
    ensures
        number_of(digits_of(n as nat, radix), radix) == Ok::<u64, NumberError>(n),
{
    digits_stand_for_number(n as nat, radix);
    let s = digits_of(n as nat, radix);
    assert(is_digit(s[0], radix));
    assert(unsigned_part(s) == s);
    assert(!meets_invalid_digit(s, radix));
}

/// `hex_to_u64` reads back what `hex_text` writes.
pub proof fn hex_text_reads_back(n: u64)
    ensures
        number_or_none(without_hex_prefix(hex(n as nat)), 16) == Some(n),
{
    reveal_strlit("0x");
    let d = digits_of(n as nat, 16);
    digits_stand_for_number(n as nat, 16);
    assert(hex(n as nat).skip(2) =~= d);
    assert(without_hex_prefix(d) == d) by {
        if d.len() >= 2 {
            assert(is_digit(d[1], 16));
        }
    }
    written_number_reads_back(n, 16);
}

/// Zeros in front of digits change nothing in the number that they stand for.
proof fn lemma_leading_zeros(s: Seq<char>, zeros: nat, radix: nat)
    ensures
        digits_value(Seq::new(zeros, |i: int| '0') + s, radix) == digits_value(s, radix),
    decreases zeros + s.len(),
{
    let z = Seq::new(zeros, |i: int| '0');
    let all = z + s;
    if s.len() > 0 {
        assert(all.drop_last() =~= z + s.drop_last());
        lemma_leading_zeros(s.drop_last(), zeros, radix);
    } else if zeros > 0 {
        let fewer = Seq::new((zeros - 1) as nat, |i: int| '0');
        assert(all.drop_last() =~= fewer + s);
        lemma_leading_zeros(s, (zeros - 1) as nat, radix);
        assert(0 * radix == 0) by (nonlinear_arith);
    } else {
        assert(all =~= s);
    }
}

/// Two numbers are never written alike, zeros in front or not.
pub proof fn three_digits_tell_numbers_apart(a: nat, b: nat)
    ensures
        three_digits(a) == three_digits(b) ==> a == b,
        three_digits(a).len() >= 3,
{
    digits_stand_for_number(a, 10);
    digits_stand_for_number(b, 10);
    lemma_leading_zeros(decimal(a), (3 - decimal(a).len()) as nat, 10);
    lemma_leading_zeros(decimal(b), (3 - decimal(b).len()) as nat, 10);
}

/// The digits are 0 to 9, and a to f in either case for ten to fifteen.
pub proof fn digits_have_their_values(c: char)
    ensures
        ({
            let n = c as int;
            char_value(c) == if 48 <= n <= 57 {
                n - 48
            } else if 97 <= n <= 102 {
                n - 87
            } else if 65 <= n <= 70 {
                n - 55
            } else {
                16
            }
        }),
{
}

/// One digit is the number that it stands for; any other single character is no number, and
/// nor is nothing.
pub proof fn one_digit_is_a_number(c: char, radix: nat)
    requires
        2 <= radix <= 16,
    ensures
        number_of(Seq::empty(), radix) == Err::<u64, NumberError>(NumberError::Empty),
        number_of(seq![c], radix) == if char_value(c) < radix {
            Ok::<u64, NumberError>(char_value(c) as u64)
        } else {
            Err(NumberError::InvalidDigit)
        },
{
    let s = seq![c];
    assert(s.drop_last() =~= Seq::<char>::empty());
    assert(digits_value(s.drop_last(), radix) == 0);
    assert(0 * radix == 0) by (nonlinear_arith);
    if char_value(c) >= radix {
        assert(s.take(0) =~= Seq::<char>::empty());
        assert(digits_value(s.take(0), radix) == 0);
        assert(!is_digit(s[0], radix) && all_digits(s.take(0), radix));
    }
}

/// Where the digits of a text are too many already, or one of them is none, no more characters
/// mend it.
proof fn lemma_number_pushed(s: Seq<char>, c: char, radix: nat)
    requires
        s.len() > 0,
        2 <= radix <= 16,
    ensures
        digits_value(s.push(c), radix) == digits_value(s, radix) * radix + char_value(c),
        meets_invalid_digit(s, radix) ==> meets_invalid_digit(s.push(c), radix),
        !meets_invalid_digit(s, radix) && digits_value(s, radix) > u64::MAX
            ==> !meets_invalid_digit(s.push(c), radix) && digits_value(s.push(c), radix) > u64::MAX,
        !meets_invalid_digit(s, radix) && digits_value(s, radix) <= u64::MAX ==> (
        meets_invalid_digit(s.push(c), radix) <==> char_value(c) >= radix),
{
    let t = s.push(c);
    assert(t.drop_last() =~= s);
    assert(t.take(s.len() as int) =~= s);
    if meets_invalid_digit(s, radix) {
        let i = choose|i: int|
            0 <= i < s.len() && !is_digit(#[trigger] s[i], radix) && all_digits(s.take(i), radix)
                && digits_value(s.take(i), radix) <= u64::MAX;
        assert(t.take(i) =~= s.take(i));
        assert(!is_digit(t[i], radix));
    } else if digits_value(s, radix) > u64::MAX {
        lemma_prefix_value(t, s.len() as int, radix);
        if meets_invalid_digit(t, radix) {
            let i = choose|i: int|
                0 <= i < t.len() && !is_digit(#[trigger] t[i], radix) && all_digits(
                    t.take(i),
                    radix,
                ) && digits_value(t.take(i), radix) <= u64::MAX;
            if i < s.len() {
                assert(t.take(i) =~= s.take(i));
                assert(!is_digit(s[i], radix));
            }
        }
    } else {
        lemma_clean_digits(s, radix);
        if char_value(c) >= radix {
            assert(!is_digit(t[s.len() as int], radix));
        } else if meets_invalid_digit(t, radix) {
            let i = choose|i: int|
                0 <= i < t.len() && !is_digit(#[trigger] t[i], radix) && all_digits(
                    t.take(i),
                    radix,
                ) && digits_value(t.take(i), radix) <= u64::MAX;
            assert(i < s.len());
            assert(is_digit(s[i], radix));
        }
    }
}

/// Where no character is met that is no digit, and the number fits, all are digits.
proof fn lemma_clean_digits(s: Seq<char>, radix: nat)
    requires
        2 <= radix <= 16,
        !meets_invalid_digit(s, radix),
        digits_value(s, radix) <= u64::MAX,
    ensures
        all_digits(s, radix),
    decreases s.len(),
{
    if s.len() > 0 {
        let fewer = s.drop_last();
        lemma_prefix_value(s, s.len() - 1, radix);
        assert(s.take(s.len() - 1) =~= fewer);
        assert(!meets_invalid_digit(fewer, radix)) by {
            if meets_invalid_digit(fewer, radix) {
                let i = choose|i: int|
                    0 <= i < fewer.len() && !is_digit(#[trigger] fewer[i], radix) && all_digits(
                        fewer.take(i),
                        radix,
                    ) && digits_value(fewer.take(i), radix) <= u64::MAX;
                assert(s.take(i) =~= fewer.take(i));
                assert(!is_digit(s[i], radix));
            }
        }
        lemma_clean_digits(fewer, radix);
        assert(is_digit(s[s.len() - 1], radix));
        assert forall|i: int| 0 <= i < s.len() implies is_digit(#[trigger] s[i], radix) by {
            if i < fewer.len() {
                assert(is_digit(fewer[i], radix));
            }
        }
    }
}

/// One more digit behind a number makes it as many times larger as the radix says, and adds
/// the digit, unless that does not fit; any other character spoils it. What is no number
/// stays none, for the same reason, whatever comes behind it.
pub proof fn one_more_digit_counts_ones(s: Seq<char>, c: char, radix: nat)
    requires
        2 <= radix <= 16,
        s.len() > 1 || (s.len() == 1 && s[0] != '+'),
    ensures
        number_of(s.push(c), radix) == match number_of(s, radix) {
            Ok(n) => if char_value(c) >= radix {
                Err::<u64, NumberError>(NumberError::InvalidDigit)
            } else if n * radix + char_value(c) > u64::MAX {
                Err(NumberError::TooLarge)
            } else {
                Ok((n * radix + char_value(c)) as u64)
            },
            Err(e) => Err(e),
        },
{
    let digits = unsigned_part(s);
    assert(unsigned_part(s.push(c)) =~= digits.push(c));
    lemma_number_pushed(digits, c, radix);
}

/// One plus sign in front of a number does not count. A plus sign alone is no number, nor are
/// two.
pub proof fn one_plus_sign_does_not_count(s: Seq<char>, radix: nat)
    requires
        2 <= radix <= 16,
    ensures
        number_of(seq!['+'] + s, radix) == if s.len() == 0 || s[0] == '+' {
            Err::<u64, NumberError>(NumberError::InvalidDigit)
        } else {
            number_of(s, radix)
        },
{
    let signed = seq!['+'] + s;
    assert(signed.skip(1) =~= s);
    if s.len() > 0 && s[0] == '+' {
        assert(s.take(0) =~= Seq::<char>::empty());
        assert(digits_value(s.take(0), radix) == 0);
        assert(!is_digit(s[0], radix) && all_digits(s.take(0), radix));
    }
}

/// A number is had exactly where it is read without an error.
pub proof fn numbers_are_had_where_they_are_read(s: Seq<char>, radix: nat)
    ensures
        number_of(s, radix) matches Ok(n) ==> number_or_none(s, radix) == Some(n),
        number_of(s, radix) is Err ==> number_or_none(s, radix) is None,
{
}

/// A `0x` in front does not count, however many there are; nothing else is taken off.
pub proof fn hex_prefixes_do_not_count(s: Seq<char>)
    ensures
        without_hex_prefix(seq!['0', 'x'] + s) == without_hex_prefix(s),
        !(s.len() >= 2 && s[0] == '0' && s[1] == 'x') ==> without_hex_prefix(s) == s,
{
    assert((seq!['0', 'x'] + s).skip(2) =~= s);
}

/// The digits of a number are those of the number without its last digit, and behind them that
/// digit: 0 to 9, and a to f from ten on.
proof fn lemma_written_digits(n: nat, d: nat, radix: nat)
    requires
        2 <= radix <= 16,
        d < radix,
    ensures
        digits_of(n * radix + d, radix) == (if n == 0 {
            Seq::empty()
        } else {
            digits_of(n, radix)
        }).push(digit_char(d)),
        digit_char(d) as int == if d < 10 {
            48 + d
        } else {
            87 + d
        },
{
    let m = n * radix + d;
    if n == 0 {
        assert(0 * radix == 0) by (nonlinear_arith);
        assert(digits_of(m, radix) =~= Seq::<char>::empty().push(digit_char(d)));
    } else {
        assert(n * radix >= radix) by (nonlinear_arith)
            requires
                n >= 1,
        ;
        vstd::arithmetic::div_mod::lemma_fundamental_div_mod_converse(
            m as int,
            radix as int,
            n as int,
            d as int,
        );
    }
}

/// A number in decimal: one digit for a number below ten, and else its tens in decimal, and
/// behind them the digit of its ones.
pub proof fn decimal_is_written_digit_by_digit(n: nat, d: nat)
    requires
        d < 10,
    ensures
        ({
            let text = decimal(10 * n + d);
            &&& text.len() >= 1
            &&& text.last() as int == 48 + d
            &&& text.drop_last() == if n == 0 {
                Seq::<char>::empty()
            } else {
                decimal(n)
            }
        }),
{
    lemma_written_digits(n, d, 10);
    let text = decimal(10 * n + d);
    assert(text.drop_last() =~= if n == 0 {
        Seq::<char>::empty()
    } else {
        decimal(n)
    });
}

/// A number in hexadecimal: `0x`, then one digit for a number below sixteen, and else the
/// digits of its sixteens, and behind them that of its ones, in lower case.
pub proof fn hex_is_written_digit_by_digit(n: nat, d: nat)
    requires
        d < 16,
    ensures
        ({
            let text = hex(16 * n + d);
            &&& text.len() >= 3
            &&& text.last() as int == if d < 10 {
                48 + d
            } else {
                87 + d
            }
            &&& text.drop_last() == if n == 0 {
                seq!['0', 'x']
            } else {
                hex(n)
            }
        }),
{
    reveal_strlit("0x");
    lemma_written_digits(n, d, 16);
    let text = hex(16 * n + d);
    assert(text.drop_last() =~= if n == 0 {
        seq!['0', 'x']
    } else {
        hex(n)
    });
}

/// With three digits a number below a thousand has its hundreds, its tens and its ones, zeros
/// included; a larger one is in decimal as it is.
pub proof fn three_digits_are_hundreds_tens_and_ones(n: nat)
    ensures
        n < 1000 ==> {
            &&& three_digits(n).len() == 3
            &&& three_digits(n)[0] as int == 48 + n / 100
            &&& three_digits(n)[1] as int == 48 + n / 10 % 10
            &&& three_digits(n)[2] as int == 48 + n % 10
        },
        n >= 1000 ==> three_digits(n) == decimal(n),
{
    lemma_written_digits(n / 10, n % 10, 10);
    lemma_written_digits(n / 100, n / 10 % 10, 10);
    lemma_written_digits(n / 1000, n / 100 % 10, 10);
    assert(n == (n / 10) * 10 + n % 10);
    assert(n / 10 == (n / 100) * 10 + n / 10 % 10);
    assert(n / 100 == (n / 1000) * 10 + n / 100 % 10);
    digits_stand_for_number(n / 1000, 10);
}

/// Each error has its own words.
pub proof fn number_errors_are_told_in_words()
    ensures
        number_error_text(NumberError::Empty) == "cannot parse integer from empty string"@,
        number_error_text(NumberError::InvalidDigit) == "invalid digit found in string"@,
        number_error_text(NumberError::TooLarge) == "number too large to fit in target type"@,
{
}

} // verus!
