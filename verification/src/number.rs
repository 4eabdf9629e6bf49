//! Decimal numbers in text.

use vstd::arithmetic::power::*;
use vstd::prelude::*;
use vstd::slice::slice_subrange;

verus! {

/// Why a text is not a number of the wanted type.
#[derive(Debug, Clone, Copy, PartialEq, Eq, Structural)]
pub enum ParseIntError {
    /// The text is empty.
    Empty,
    /// A character is not a digit, or no digit follows the sign.
    InvalidDigit,
    /// The number is above the greatest of its type.
    PosOverflow,
    /// The number is below the least of its type.
    NegOverflow,
}

/// Whether `c` is one of the ASCII digits.
pub open spec fn is_digit(c: char) -> bool {
    '0' <= c <= '9'
}

/// Whether `s` holds nothing but ASCII digits.
pub open spec fn all_digits(s: Seq<char>) -> bool {
    forall|i: int| 0 <= i < s.len() ==> is_digit(#[trigger] s[i])
}

/// The number that a digit stands for.
pub open spec fn digit_value(c: char) -> int {
    c as int - '0' as int
}

/// The number that a sequence of digits stands for.
pub open spec fn value(s: Seq<char>) -> int
    decreases s.len(),
{
    if s.len() == 0 {
        0
    } else {
        value(s.drop_last()) * 10 + digit_value(s.last())
    }
}

/// The number of digits that `s` begins with.
pub open spec fn digit_run(s: Seq<char>) -> nat
    decreases s.len(),
{
    if s.len() > 0 && is_digit(s[0]) {
        1 + digit_run(s.drop_first())
    } else {
        0
    }
}

/// The number that `digits` stands for, which is `max` at most. A leading run of digits that
/// is already too large counts before whatever follows it.
pub open spec fn magnitude(digits: Seq<char>, max: int, overflow: ParseIntError) -> Result<
    int,
    ParseIntError,
> {
    let run = digits.take(digit_run(digits) as int);
    if value(run) > max {
        Err(overflow)
    } else if run.len() < digits.len() || digits.len() == 0 {
        Err(ParseIntError::InvalidDigit)
    } else {
        Ok(value(run))
    }
}

/// The unsigned number that `s` stands for: digits, perhaps after a plus sign.
pub open spec fn unsigned(s: Seq<char>, max: int) -> Result<int, ParseIntError> {
    if s.len() == 0 {
        Err(ParseIntError::Empty)
    } else if s[0] == '+' {
        magnitude(s.drop_first(), max, ParseIntError::PosOverflow)
    } else {
        magnitude(s, max, ParseIntError::PosOverflow)
    }
}

/// The signed number that `s` stands for: digits, perhaps after a sign.
pub open spec fn signed(s: Seq<char>, min: int, max: int) -> Result<int, ParseIntError> {
    if s.len() > 0 && s[0] == '-' {
        match magnitude(s.drop_first(), -min, ParseIntError::NegOverflow) {
            Ok(v) => Ok(-v),
            Err(e) => Err(e),
        }
    } else {
        unsigned(s, max)
    }
}

/// The `u64` that `s` stands for.
pub open spec fn u64_of(s: Seq<char>) -> Result<u64, ParseIntError> {
    match unsigned(s, u64::MAX as int) {
        Ok(v) => Ok(v as u64),
        Err(e) => Err(e),
    }
}

/// The `u32` that `s` stands for.
pub open spec fn u32_of(s: Seq<char>) -> Result<u32, ParseIntError> {
    match unsigned(s, u32::MAX as int) {
        Ok(v) => Ok(v as u32),
        Err(e) => Err(e),
    }
}

/// The `u8` that `s` stands for.
pub open spec fn u8_of(s: Seq<char>) -> Result<u8, ParseIntError> {
    match unsigned(s, u8::MAX as int) {
        Ok(v) => Ok(v as u8),
        Err(e) => Err(e),
    }
}

/// The `i32` that `s` stands for.
pub open spec fn i32_of(s: Seq<char>) -> Result<i32, ParseIntError> {
    match signed(s, i32::MIN as int, i32::MAX as int) {
        Ok(v) => Ok(v as i32),
        Err(e) => Err(e),
    }
}

/// A run of digits ends at the first character that is none, or with the text.
proof fn lemma_digit_run(s: Seq<char>)
    ensures
        digit_run(s) <= s.len(),
        all_digits(s.take(digit_run(s) as int)),
        digit_run(s) < s.len() ==> !is_digit(s[digit_run(s) as int]),
    decreases s.len(),
{
    if s.len() > 0 && is_digit(s[0]) {
        let t = s.drop_first();
        lemma_digit_run(t);
        let n = digit_run(s) as int;
        assert forall|i: int| 0 <= i < n implies is_digit(#[trigger] s.take(n)[i]) by {
            if i > 0 {
                assert(t.take(n - 1)[i - 1] == s[i]);
            }
        }
    }
}

/// The run of digits that `s` begins with has the given length.
proof fn lemma_digit_run_is(s: Seq<char>, n: int)
    requires
        0 <= n <= s.len(),
        all_digits(s.take(n)),
        n < s.len() ==> !is_digit(s[n]),
    ensures
        digit_run(s) == n,
{
    lemma_digit_run(s);
    let m = digit_run(s) as int;
    if n < m {
        assert(s.take(m)[n] == s[n]);
    }
    if m < n {
        assert(s.take(n)[m] == s[m]);
    }
}

/// Digits stand for a number that is not negative, and more digits for no smaller one.
proof fn lemma_value_grows(s: Seq<char>, n: int)
    requires
        all_digits(s),
        0 <= n <= s.len(),
    ensures
        0 <= value(s.take(n)) <= value(s),
    decreases s.len(),
{
    if n < s.len() {
        let t = s.drop_last();
        assert(all_digits(t)) by {
            assert forall|i: int| 0 <= i < t.len() implies is_digit(#[trigger] t[i]) by {
                assert(t[i] == s[i]);
            }
        }
        lemma_value_grows(t, n);
        assert(t.take(n) =~= s.take(n));
        assert(is_digit(s[s.len() - 1]));
    } else {
        assert(s.take(n) =~= s);
        if s.len() > 0 {
            let t = s.drop_last();
            assert forall|i: int| 0 <= i < t.len() implies is_digit(#[trigger] t[i]) by {
                assert(t[i] == s[i]);
            }
            lemma_value_grows(t, 0);
            assert(value(t.take(0)) == 0);
            assert(is_digit(s[s.len() - 1]));
        }
    }
}

/// Whether `c` is one of the ASCII digits.
pub fn is_ascii_digit(c: char) -> (r: bool)
    ensures
        r == is_digit(c),
{
    '0' <= c && c <= '9'
}

/// Whether `s` holds nothing but ASCII digits.
pub fn is_str_numeric(s: &[char]) -> (r: bool)
    ensures
        r == all_digits(s@),
{
    let mut i: usize = 0;
    while i < s.len()
        invariant
            i <= s@.len(),
            forall|j: int| 0 <= j < i ==> is_digit(#[trigger] s@[j]),
        decreases s@.len() - i,
    {
        if !is_ascii_digit(s[i]) {
            return false;
        }
        i += 1;
    }
    true
}

/// The number that `digits` stands for, where it is `max` at most.
fn parse_magnitude(digits: &[char], max: u64, overflow: ParseIntError) -> (r: Result<
    u64,
    ParseIntError,
>)
    ensures
        match r {
            Ok(v) => magnitude(digits@, max as int, overflow) == Ok::<int, ParseIntError>(v as int),
            Err(e) => magnitude(digits@, max as int, overflow) == Err::<int, ParseIntError>(e),
        },
{
    let ghost d = digits@;
    let ghost run = d.take(digit_run(d) as int);
    proof {
        lemma_digit_run(d);
    }
    let mut acc: u64 = 0;
    let mut i: usize = 0;
    assert(d.take(0) =~= Seq::<char>::empty());
    while i < digits.len() && is_ascii_digit(digits[i])
        invariant
            i <= d.len(),
            d == digits@,
            run == d.take(digit_run(d) as int),
            digit_run(d) <= d.len(),
            all_digits(run),
            all_digits(d.take(i as int)),
            acc as int == value(d.take(i as int)),
            acc <= max,
        decreases d.len() - i,
    {
        let digit: u64 = digits[i] as u64 - '0' as u64;
        let ghost next = d.take(i + 1);
        proof {
            assert(next.drop_last() =~= d.take(i as int));
            assert(next.last() == d[i as int]);
            assert forall|j: int| 0 <= j < next.len() implies is_digit(#[trigger] next[j]) by {
                if j < i {
                    assert(d.take(i as int)[j] == next[j]);
                }
            }
            assert(value(next) == acc * 10 + digit);
            if digit_run(d) < i + 1 {
                lemma_digit_run(d);
                assert(next[digit_run(d) as int] == d[digit_run(d) as int]);
            }
            lemma_value_grows(run, i + 1);
            assert(run.take(i + 1) =~= next);
        }
        if acc > max / 10 {
            return Err(overflow);
        }
        let shifted: u64 = acc * 10;
        if digit > max - shifted {
            return Err(overflow);
        }
        acc = shifted + digit;
        i += 1;
    }
    proof {
        lemma_digit_run_is(d, i as int);
    }
    if i < digits.len() || digits.len() == 0 {
        Err(ParseIntError::InvalidDigit)
    } else {
        Ok(acc)
    }
}

/// The unsigned number that `s` stands for, where it is `max` at most.
fn parse_unsigned(s: &[char], max: u64) -> (r: Result<u64, ParseIntError>)
    ensures
        match r {
            Ok(v) => unsigned(s@, max as int) == Ok::<int, ParseIntError>(v as int) && v <= max,
            Err(e) => unsigned(s@, max as int) == Err::<int, ParseIntError>(e),
        },
{
    if s.len() == 0 {
        Err(ParseIntError::Empty)
    } else if s[0] == '+' {
        let digits = slice_subrange(s, 1, s.len());
        assert(digits@ =~= s@.drop_first());
        parse_magnitude(digits, max, ParseIntError::PosOverflow)
    } else {
        parse_magnitude(s, max, ParseIntError::PosOverflow)
    }
}

/// The `u64` that `s` stands for.
pub fn parse_u64(s: &[char]) -> (r: Result<u64, ParseIntError>)
    ensures
        r == u64_of(s@),
{
    parse_unsigned(s, u64::MAX)
}

/// The `u32` that `s` stands for.
pub fn parse_u32(s: &[char]) -> (r: Result<u32, ParseIntError>)
    ensures
        r == u32_of(s@),
{
    match parse_unsigned(s, u32::MAX as u64) {
        Ok(v) => Ok(v as u32),
        Err(e) => Err(e),
    }
}

/// The `u8` that `s` stands for.
pub fn parse_u8(s: &[char]) -> (r: Result<u8, ParseIntError>)
    ensures
        r == u8_of(s@),
{
    match parse_unsigned(s, u8::MAX as u64) {
        Ok(v) => Ok(v as u8),
        Err(e) => Err(e),
    }
}

/// The `i32` that `s` stands for.
pub fn parse_i32(s: &[char]) -> (r: Result<i32, ParseIntError>)
    ensures
        r == i32_of(s@),
{
    if s.len() > 0 && s[0] == '-' {
        let digits = slice_subrange(s, 1, s.len());
        assert(digits@ =~= s@.drop_first());
        match parse_magnitude(digits, 0x8000_0000, ParseIntError::NegOverflow) {
            Ok(v) => {
                assert(v <= 0x8000_0000);
                Ok((-(v as i64)) as i32)
            },
            Err(e) => Err(e),
        }
    } else {
        match parse_unsigned(s, i32::MAX as u64) {
            Ok(v) => Ok(v as i32),
            Err(e) => Err(e),
        }
    }
}

/// The digit that stands for `v`.
pub open spec fn digit_char(v: int) -> char {
    ('0' as int + v) as char
}

/// The decimal notation of `n`, without leading zeros.
pub open spec fn decimal(n: nat) -> Seq<char>
    decreases n,
{
    if n < 10 {
        seq![digit_char(n as int)]
    } else {
        decimal(n / 10).push(digit_char((n % 10) as int))
    }
}

/// The decimal notation of `n`, with a minus sign where it is negative.
pub open spec fn decimal_i32(n: i32) -> Seq<char> {
    if n < 0 {
        seq!['-'] + decimal((-n) as nat)
    } else {
        decimal(n as nat)
    }
}

/// Appends the decimal notation of `n` to `out`.
fn push_decimal(out: &mut Vec<char>, n: u32)
    ensures
        final(out)@ == old(out)@ + decimal(n as nat),
    decreases n,
{
    let ghost before = out@;
    if n >= 10 {
        push_decimal(out, n / 10);
    }
    let digit: u8 = '0' as u8 + (n % 10) as u8;
    out.push(digit as char);
    assert(out@ =~= before + decimal(n as nat));
}

/// The decimal notation of `n`.
pub fn write_i32(n: i32) -> (r: Vec<char>)
    ensures
        r@ == decimal_i32(n),
{
    let mut out: Vec<char> = Vec::new();
    if n < 0 {
        out.push('-');
        push_decimal(&mut out, (-(n as i64)) as u32);
    } else {
        push_decimal(&mut out, n as u32);
    }
    assert(out@ =~= decimal_i32(n));
    out
}

/// The decimal notation of a number consists of digits and stands for that number.
pub proof fn lemma_decimal(n: nat)
    ensures
        decimal(n).len() > 0,
        all_digits(decimal(n)),
        value(decimal(n)) == n,
    decreases n,
{
    if n < 10 {
        let s = decimal(n);
        assert(s.drop_last() =~= Seq::<char>::empty());
        assert(value(s.drop_last()) == 0);
    } else {
        lemma_decimal(n / 10);
        let s = decimal(n);
        assert(s.drop_last() =~= decimal(n / 10));
        assert forall|i: int| 0 <= i < s.len() implies is_digit(#[trigger] s[i]) by {
            if i < s.len() - 1 {
                assert(decimal(n / 10)[i] == s[i]);
            }
        }
    }
}

/// Reading back the decimal notation of a number gives that number.
pub proof fn theorem_write_then_parse(n: i32)
    ensures
        i32_of(decimal_i32(n)) == Ok::<i32, ParseIntError>(n),
{
    let m = if n < 0 {
        (-n) as nat
    } else {
        n as nat
    };
    let d = decimal(m);
    lemma_decimal(m);
    assert(d.take(d.len() as int) =~= d);
    lemma_digit_run_is(d, d.len() as int);
    if n < 0 {
        assert(decimal_i32(n).drop_first() =~= d);
    } else {
        assert(is_digit(d[0]));
    }
}

/// Reading back the decimal notation of a number that is not negative gives that number.
pub proof fn theorem_parse_decimal(n: u64)
    ensures
        u64_of(decimal(n as nat)) == Ok::<u64, ParseIntError>(n),
{
    let d = decimal(n as nat);
    lemma_decimal(n as nat);
    assert(d.take(d.len() as int) =~= d);
    lemma_digit_run_is(d, d.len() as int);
    assert(is_digit(d[0]));
}

/// The digits are the ten characters from the number 48 on, and stand for 0 to 9 in turn.
pub proof fn theorem_digits(c: char)
    ensures
        is_digit(c) <==> 48 <= c as int <= 57,
        digit_value(c) == c as int - 48,
        '0' as int == 48,
{
}

/// The notation is positional, with base ten: the digit in front of `s` counts ten to the power
/// of the length of `s`.
pub proof fn theorem_value(c: char, s: Seq<char>)
    ensures
        value(Seq::empty()) == 0,
        value(seq![c] + s) == (c as int - 48) * pow(10, s.len()) + value(s),
    decreases s.len(),
{
    let all = seq![c] + s;
    let v = c as int - 48;
    reveal(pow);
    if s.len() == 0 {
        assert(all.drop_last() =~= Seq::<char>::empty());
        assert(value(all.drop_last()) == 0);
        assert(pow(10, 0) == 1);
        assert(s =~= Seq::<char>::empty());
    } else {
        let shorter = s.drop_last();
        theorem_value(c, shorter);
        assert(all.drop_last() =~= seq![c] + shorter);
        assert(all.last() == s.last());
        let p = pow(10, shorter.len());
        assert(pow(10, s.len()) == 10 * p);
        assert((v * p) * 10 == v * (10 * p)) by (nonlinear_arith);
    }
}

/// The decimal notation of a number holds nothing but digits, stands for that number, and has
/// no zero in front.
pub proof fn theorem_decimal(n: nat)
    ensures
        decimal(n).len() > 0,
        all_digits(decimal(n)),
        value(decimal(n)) == n,
        n == 0 ==> decimal(n) == seq!['0'],
        n > 0 ==> decimal(n)[0] != '0',
    decreases n,
{
    lemma_decimal(n);
    if n >= 10 {
        theorem_decimal(n / 10);
        assert(decimal(n)[0] == decimal(n / 10)[0]);
    }
}

/// The decimal notation of an `i32` is that of its amount, after a minus sign where it is
/// negative.
pub proof fn theorem_decimal_i32(n: i32)
    ensures
        n >= 0 ==> decimal_i32(n) == decimal(n as nat),
        n < 0 ==> decimal_i32(n) == seq!['-'] + decimal((-n) as nat),
{
}

/// Digits, however many zeros are in front, are read as the number that they stand for, with
/// and without a plus sign, and refused where the type cannot hold it.
pub proof fn theorem_parse_digits(d: Seq<char>)
    requires
        d.len() > 0,
        all_digits(d),
    ensures
        value(d) <= 0xffff_ffff_ffff_ffff ==> (u64_of(d) matches Ok(v) && v == value(d)),
        value(d) > 0xffff_ffff_ffff_ffff ==> u64_of(d) == Err::<u64, _>(ParseIntError::PosOverflow),
        value(d) <= 0xffff_ffff ==> (u32_of(d) matches Ok(v) && v == value(d)),
        value(d) > 0xffff_ffff ==> u32_of(d) == Err::<u32, _>(ParseIntError::PosOverflow),
        value(d) <= 0xff ==> (u8_of(d) matches Ok(v) && v == value(d)),
        value(d) > 0xff ==> u8_of(d) == Err::<u8, _>(ParseIntError::PosOverflow),
        value(d) <= 0x7fff_ffff ==> (i32_of(d) matches Ok(v) && v == value(d)),
        value(d) > 0x7fff_ffff ==> i32_of(d) == Err::<i32, _>(ParseIntError::PosOverflow),
        u64_of(seq!['+'] + d) == u64_of(d),
        u32_of(seq!['+'] + d) == u32_of(d),
        u8_of(seq!['+'] + d) == u8_of(d),
        i32_of(seq!['+'] + d) == i32_of(d),
{
    assert(d.take(d.len() as int) =~= d);
    lemma_digit_run_is(d, d.len() as int);
    lemma_value_grows(d, 0);
    assert(is_digit(d[0]));
    assert((seq!['+'] + d).drop_first() =~= d);
}

/// Digits after a minus sign are read as the negative number, and refused where the type
/// cannot hold it.
pub proof fn theorem_parse_negative_digits(d: Seq<char>)
    requires
        d.len() > 0,
        all_digits(d),
    ensures
        value(d) <= 0x8000_0000 ==> (i32_of(seq!['-'] + d) matches Ok(v) && v == -value(d)),
        value(d) > 0x8000_0000 ==> i32_of(seq!['-'] + d) == Err::<i32, _>(
            ParseIntError::NegOverflow,
        ),
{
    assert(d.take(d.len() as int) =~= d);
    lemma_digit_run_is(d, d.len() as int);
    lemma_value_grows(d, 0);
    assert((seq!['-'] + d).drop_first() =~= d);
}

proof fn lemma_broken_run(d: Seq<char>, c: char, rest: Seq<char>)
    requires
        all_digits(d),
        !is_digit(c),
    ensures
        ({
            let s = d.push(c) + rest;
            digit_run(s) == d.len() && s.take(digit_run(s) as int) == d
        }),
{
    let s = d.push(c) + rest;
    assert(s.take(d.len() as int) =~= d);
    assert(s[d.len() as int] == c);
    lemma_digit_run_is(s, d.len() as int);
}

/// A character that is no digit makes a text no number, unless the digits before it are
/// already too many.
pub proof fn theorem_parse_other_character(d: Seq<char>, c: char, rest: Seq<char>)
    requires
        all_digits(d),
        !is_digit(c),
        d.len() > 0 || c != '+',
    ensures
        ({
            let s = d.push(c) + rest;
            &&& u64_of(s) == Err::<u64, _>(
                if value(d) > 0xffff_ffff_ffff_ffff {
                    ParseIntError::PosOverflow
                } else {
                    ParseIntError::InvalidDigit
                },
            )
            &&& u32_of(s) == Err::<u32, _>(
                if value(d) > 0xffff_ffff {
                    ParseIntError::PosOverflow
                } else {
                    ParseIntError::InvalidDigit
                },
            )
            &&& u8_of(s) == Err::<u8, _>(
                if value(d) > 0xff {
                    ParseIntError::PosOverflow
                } else {
                    ParseIntError::InvalidDigit
                },
            )
            &&& d.len() > 0 || c != '-' ==> i32_of(s) == Err::<i32, _>(
                if value(d) > 0x7fff_ffff {
                    ParseIntError::PosOverflow
                } else {
                    ParseIntError::InvalidDigit
                },
            )
        }),
{
    let s = d.push(c) + rest;
    lemma_broken_run(d, c, rest);
    if d.len() > 0 {
        assert(is_digit(d[0]));
        assert(s[0] == d[0]);
    } else {
        assert(s[0] == c);
    }
}

/// The same holds behind a sign.
pub proof fn theorem_parse_other_character_after_sign(d: Seq<char>, c: char, rest: Seq<char>)
    requires
        all_digits(d),
        !is_digit(c),
    ensures
        ({
            let s = seq!['+'] + (d.push(c) + rest);
            let t = seq!['-'] + (d.push(c) + rest);
            &&& u64_of(s) == Err::<u64, _>(
                if value(d) > 0xffff_ffff_ffff_ffff {
                    ParseIntError::PosOverflow
                } else {
                    ParseIntError::InvalidDigit
                },
            )
            &&& u32_of(s) == Err::<u32, _>(
                if value(d) > 0xffff_ffff {
                    ParseIntError::PosOverflow
                } else {
                    ParseIntError::InvalidDigit
                },
            )
            &&& u8_of(s) == Err::<u8, _>(
                if value(d) > 0xff {
                    ParseIntError::PosOverflow
                } else {
                    ParseIntError::InvalidDigit
                },
            )
            &&& i32_of(s) == Err::<i32, _>(
                if value(d) > 0x7fff_ffff {
                    ParseIntError::PosOverflow
                } else {
                    ParseIntError::InvalidDigit
                },
            )
            &&& i32_of(t) == Err::<i32, _>(
                if value(d) > 0x8000_0000 {
                    ParseIntError::NegOverflow
                } else {
                    ParseIntError::InvalidDigit
                },
            )
        }),
{
    let u = d.push(c) + rest;
    lemma_broken_run(d, c, rest);
    assert((seq!['+'] + u).drop_first() =~= u);
    assert((seq!['-'] + u).drop_first() =~= u);
}

/// A text without a digit is no number: it is empty, or a sign stands alone.
pub proof fn theorem_parse_nothing()
    ensures
        u64_of(seq![]) == Err::<u64, _>(ParseIntError::Empty),
        u32_of(seq![]) == Err::<u32, _>(ParseIntError::Empty),
        u8_of(seq![]) == Err::<u8, _>(ParseIntError::Empty),
        i32_of(seq![]) == Err::<i32, _>(ParseIntError::Empty),
        u64_of(seq!['+']) == Err::<u64, _>(ParseIntError::InvalidDigit),
        u32_of(seq!['+']) == Err::<u32, _>(ParseIntError::InvalidDigit),
        u8_of(seq!['+']) == Err::<u8, _>(ParseIntError::InvalidDigit),
        i32_of(seq!['+']) == Err::<i32, _>(ParseIntError::InvalidDigit),
        i32_of(seq!['-']) == Err::<i32, _>(ParseIntError::InvalidDigit),
{
    assert(seq!['+'].drop_first() =~= Seq::<char>::empty());
    assert(seq!['-'].drop_first() =~= Seq::<char>::empty());
    assert(Seq::<char>::empty().take(0) =~= Seq::<char>::empty());
}

/// Reading back the decimal notation of a number gives that number, for each unsigned type
/// that can hold it.
pub proof fn theorem_parse_decimal_small(n: u32)
    ensures
        u32_of(decimal(n as nat)) == Ok::<u32, ParseIntError>(n),
        n <= 0xff ==> u8_of(decimal(n as nat)) == Ok::<u8, ParseIntError>(n as u8),
{
    theorem_decimal(n as nat);
    theorem_parse_digits(decimal(n as nat));
}

} // verus!
