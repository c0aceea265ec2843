//! Numbers as decimal text.

use vstd::prelude::*;
use vstd::string::*;

verus! {

/// Why a text is no number.
#[derive(Clone, Copy, Debug, PartialEq, Eq, Structural)]
pub enum IntError {
    /// The text is empty.
    Empty,
    /// A character is no digit.
    InvalidDigit,
    /// The number is too large for its type.
    PosOverflow,
    /// The number is too small for its type.
    NegOverflow,
}

impl IntError {
    /// What the error says.
    pub open spec fn text(self) -> Seq<char> {
        match self {
            IntError::Empty => "cannot parse integer from empty string"@,
            IntError::InvalidDigit => "invalid digit found in string"@,
            IntError::PosOverflow => "number too large to fit in target type"@,
            IntError::NegOverflow => "number too small to fit in target type"@,
        }
    }

    /// What the error says.
    pub fn message(self) -> (message: &'static str)
        ensures
            message@ == self.text(),
    {
        match self {
            IntError::Empty => "cannot parse integer from empty string",
            IntError::InvalidDigit => "invalid digit found in string",
            IntError::PosOverflow => "number too large to fit in target type",
            IntError::NegOverflow => "number too small to fit in target type",
        }
    }
}

/// Whether `c` is a decimal digit.
pub open spec fn is_digit(c: char) -> bool {
    '0' <= c <= '9'
}

/// The value of a digit.
pub open spec fn digit_value(c: char) -> nat {
    (c as int - '0' as int) as nat
}

/// The digit of a value below ten.
pub open spec fn digit_char(value: nat) -> char {
    ('0' as int + value) as char
}

/// Reads digits from the left while the value stays within `limit`; `over` is the error beyond it.
pub open spec fn read_digits(s: Seq<char>, limit: nat, over: IntError) -> Result<nat, IntError>
    decreases s.len(),
{
    if s.len() == 0 {
        Ok(0)
    } else {
        match read_digits(s.drop_last(), limit, over) {
            Err(e) => Err(e),
            Ok(value) => if !is_digit(s.last()) {
                Err(IntError::InvalidDigit)
            } else if value * 10 + digit_value(s.last()) > limit {
                Err(over)
            } else {
                Ok(value * 10 + digit_value(s.last()))
            },
        }
    }
}

/// The number that a text stands for, up to `limit`: digits, after a plus sign or none.
pub open spec fn read_unsigned(s: Seq<char>, limit: nat) -> Result<nat, IntError> {
    if s.len() == 0 {
        Err(IntError::Empty)
    } else if s == seq!['+'] {
        Err(IntError::InvalidDigit)
    } else if s[0] == '+' {
        read_digits(s.skip(1), limit, IntError::PosOverflow)
    } else {
        read_digits(s, limit, IntError::PosOverflow)
    }
}

/// The number that a text stands for, from `-limit - 1` to `limit`: digits, after a sign or none.
pub open spec fn read_signed(s: Seq<char>, limit: nat) -> Result<int, IntError> {
    if s.len() > 0 && s[0] == '-' && s != seq!['-'] {
        match read_digits(s.skip(1), limit + 1, IntError::NegOverflow) {
            Ok(value) => Ok(-(value as int)),
            Err(e) => Err(e),
        }
    } else {
        match read_unsigned(s, limit) {
            Ok(value) => Ok(value as int),
            Err(e) => Err(e),
        }
    }
}

/// Reads the digits of `s` from position `from` on.
fn scan_digits(s: &Vec<char>, from: usize, limit: u32, over: IntError) -> (value: Result<
    u32,
    IntError,
>)
    requires
        from <= s@.len(),
    ensures
        match value {
            Ok(v) => read_digits(s@.skip(from as int), limit as nat, over) == Ok::<nat, IntError>(
                v as nat,
            ),
            Err(e) => read_digits(s@.skip(from as int), limit as nat, over) == Err::<nat, IntError>(
                e,
            ),
        },
{
    let mut value: u32 = 0;
    let mut i: usize = from;
    let ghost digits = s@.skip(from as int);
    assert(digits.take(0) =~= Seq::<char>::empty());
    while i < s.len()
        invariant
            from <= i <= s@.len(),
            digits == s@.skip(from as int),
            value <= limit,
            read_digits(digits.take(i - from), limit as nat, over) == Ok::<nat, IntError>(
                value as nat,
            ),
        decreases s@.len() - i,
    {
        let c: char = s[i];
        let ghost more = digits.take(i - from + 1);
        proof {
            assert(more.drop_last() =~= digits.take(i - from));
            assert(more.last() == c);
        }
        if !('0' <= c && c <= '9') {
            proof {
                lemma_error_stays(digits, limit as nat, over, i - from + 1);
            }
            return Err(IntError::InvalidDigit);
        }
        let wide: u64 = (value as u64) * 10 + (c as u32 - 48) as u64;
        if wide > limit as u64 {
            proof {
                lemma_error_stays(digits, limit as nat, over, i - from + 1);
            }
            return Err(over);
        }
        value = wide as u32;
        i = i + 1;
    }
    assert(digits.take(digits.len() as int) =~= digits);
    Ok(value)
}

/// Once reading fails it stays failed.
proof fn lemma_error_stays(s: Seq<char>, limit: nat, over: IntError, k: int)
    requires
        0 <= k <= s.len(),
        read_digits(s.take(k), limit, over) is Err,
    ensures
        read_digits(s, limit, over) == read_digits(s.take(k), limit, over),
    decreases s.len() - k,
{
    if k < s.len() {
        assert(s.take(k + 1).drop_last() =~= s.take(k));
        lemma_error_stays(s, limit, over, k + 1);
    } else {
        assert(s.take(k) =~= s);
    }
}

/// Reads an unsigned number.
pub fn parse_u32(s: &Vec<char>) -> (value: Result<u32, IntError>)
    ensures
        match value {
            Ok(v) => read_unsigned(s@, u32::MAX as nat) == Ok::<nat, IntError>(v as nat),
            Err(e) => read_unsigned(s@, u32::MAX as nat) == Err::<nat, IntError>(e),
        },
{
    if s.len() == 0 {
        return Err(IntError::Empty);
    }
    if s[0] == '+' {
        if s.len() == 1 {
            assert(s@ =~= seq!['+']);
            return Err(IntError::InvalidDigit);
        }
        assert(s@ != seq!['+']) by {
            assert(s@.len() != seq!['+'].len());
        }
        scan_digits(s, 1, u32::MAX, IntError::PosOverflow)
    } else {
        assert(s@ != seq!['+']) by {
            assert(s@[0] != seq!['+'][0]);
        }
        assert(s@.skip(0) =~= s@);
        scan_digits(s, 0, u32::MAX, IntError::PosOverflow)
    }
}

/// Reads a signed number.
pub fn parse_i32(s: &Vec<char>) -> (value: Result<i32, IntError>)
    ensures
        match value {
            Ok(v) => read_signed(s@, i32::MAX as nat) == Ok::<int, IntError>(v as int),
            Err(e) => read_signed(s@, i32::MAX as nat) == Err::<int, IntError>(e),
        },
{
    if s.len() == 0 {
        return Err(IntError::Empty);
    }
    let plus = seq_is(s, '+');
    let minus = seq_is(s, '-');
    if plus || minus {
        proof {
            if minus {
                assert(s@ != seq!['+']) by {
                    assert(s@[0] != seq!['+'][0]);
                }
                assert(s@.drop_last() =~= Seq::<char>::empty());
                assert(read_digits(s@.drop_last(), i32::MAX as nat, IntError::PosOverflow) == Ok::<
                    nat,
                    IntError,
                >(0));
            }
        }
        return Err(IntError::InvalidDigit);
    }
    let start: usize = if s[0] == '+' || s[0] == '-' {
        1
    } else {
        0
    };
    assert(s@.skip(0) =~= s@);
    if s[0] == '-' {
        match scan_digits(s, start, 2147483648, IntError::NegOverflow) {
            Ok(v) => Ok((-(v as i64)) as i32),
            Err(e) => Err(e),
        }
    } else {
        match scan_digits(s, start, 2147483647, IntError::PosOverflow) {
            Ok(v) => Ok(v as i32),
            Err(e) => Err(e),
        }
    }
}

/// Whether `s` is the single character `c`.
fn seq_is(s: &Vec<char>, c: char) -> (yes: bool)
    ensures
        yes == (s@ == seq![c]),
{
    if s.len() == 1 && s[0] == c {
        assert(s@ =~= seq![c]);
        true
    } else {
        assert(s@ != seq![c]) by {
            if s@ == seq![c] {
                assert(s@.len() == 1 && s@[0] == c);
            }
        }
        false
    }
}

/// The decimal digits of a number.
pub open spec fn decimal(n: nat) -> Seq<char>
    decreases n,
{
    if n < 10 {
        seq![digit_char(n)]
    } else {
        decimal(n / 10).push(digit_char(n % 10))
    }
}

/// `s` with zeros in front up to `width` characters.
pub open spec fn zero_padded(s: Seq<char>, width: int) -> Seq<char> {
    if s.len() >= width {
        s
    } else {
        Seq::new((width - s.len()) as nat, |i: int| '0') + s
    }
}

/// Writes the decimal digits of `n` into a fresh list.
fn digits_of(n: u128) -> (digits: Vec<char>)
    ensures
        digits@ == decimal(n as nat),
    decreases n,
{
    if n < 10 {
        let mut digits: Vec<char> = Vec::new();
        digits.push((48 + n as u8) as char);
        assert(digits@ =~= decimal(n as nat));
        digits
    } else {
        let mut digits = digits_of(n / 10);
        digits.push((48 + (n % 10) as u8) as char);
        digits
    }
}

/// Puts all of `chars` behind `s`.
pub fn push_chars(s: &mut String, chars: &Vec<char>)
    ensures
        final(s)@ == old(s)@ + chars@,
{
    let mut i: usize = 0;
    assert(s@ =~= s@ + chars@.take(0));
    while i < chars.len()
        invariant
            i <= chars@.len(),
            s@ == old(s)@ + chars@.take(i as int),
        decreases chars@.len() - i,
    {
        s.push(chars[i]);
        assert(chars@.take(i + 1) =~= chars@.take(i as int).push(chars@[i as int]));
        assert(s@ =~= old(s)@ + chars@.take(i + 1));
        i = i + 1;
    }
    assert(chars@.take(chars@.len() as int) =~= chars@);
}

/// Writes `n` in decimal behind `s`.
pub fn push_decimal(s: &mut String, n: u64)
    ensures
        final(s)@ == old(s)@ + decimal(n as nat),
{
    let digits = digits_of(n as u128);
    push_chars(s, &digits);
}

/// Writes `n` in decimal behind `s`, with zeros in front up to `width` characters.
pub fn push_padded(s: &mut String, n: u32, width: usize)
    ensures
        final(s)@ == old(s)@ + zero_padded(decimal(n as nat), width as int),
{
    let digits = digits_of(n as u128);
    let missing: usize = if digits.len() >= width {
        0
    } else {
        width - digits.len()
    };
    let mut i: usize = 0;
    let ghost zeros = Seq::new(missing as nat, |i: int| '0');
    assert(s@ =~= s@ + zeros.take(0));
    while i < missing
        invariant
            i <= missing,
            zeros == Seq::new(missing as nat, |i: int| '0'),
            s@ == old(s)@ + zeros.take(i as int),
        decreases missing - i,
    {
        s.push('0');
        assert(s@ =~= old(s)@ + zeros.take(i + 1));
        i = i + 1;
    }
    push_chars(s, &digits);
    assert(zeros.take(missing as int) =~= zeros);
    assert(s@ =~= old(s)@ + zero_padded(digits@, width as int));
}

/// A whole number with its sign.
pub open spec fn signed(n: int) -> Seq<char> {
    if n < 0 {
        seq!['-'] + decimal((-n) as nat)
    } else {
        decimal(n as nat)
    }
}

/// Writes `n` in decimal behind `s`, after a minus sign if it is negative.
pub fn push_signed(s: &mut String, n: i64)
    ensures
        final(s)@ == old(s)@ + signed(n as int),
{
    if n < 0 {
        s.push('-');
        let digits = digits_of((-(n as i128)) as u128);
        push_chars(s, &digits);
        assert(s@ =~= old(s)@ + signed(n as int));
    } else {
        let digits = digits_of(n as u128);
        push_chars(s, &digits);
    }
}

/// A power of ten.
pub open spec fn power_of_ten(exponent: nat) -> nat
    decreases exponent,
{
    if exponent == 0 {
        1
    } else {
        10 * power_of_ten((exponent - 1) as nat)
    }
}

/// A power of ten that is no more than a billion.
fn ten_to(exponent: u32) -> (power: u64)
    requires
        exponent <= 9,
    ensures
        power == power_of_ten(exponent as nat),
        1 <= power <= 1_000_000_000,
{
    proof {
        reveal_with_fuel(power_of_ten, 10);
    }
    match exponent {
        0 => 1,
        1 => 10,
        2 => 100,
        3 => 1000,
        4 => 10_000,
        5 => 100_000,
        6 => 1_000_000,
        7 => 10_000_000,
        8 => 100_000_000,
        _ => 1_000_000_000,
    }
}

/// How often `step` goes into `value`, rounded to the nearest whole number; half-way between two
/// the even one.
pub open spec fn nearest(value: nat, step: nat) -> nat {
    let below = value / step;
    let rest = value % step;
    if 2 * rest > step || (2 * rest == step && below % 2 == 1) {
        below + 1
    } else {
        below
    }
}

/// Rounding is off by no more than half a step.
pub proof fn lemma_rounding_is_near(value: nat, step: nat)
    requires
        step > 0,
    ensures
        2 * value - step <= 2 * (nearest(value, step) * step) <= 2 * value + step,
{
    let below = value / step;
    vstd::arithmetic::div_mod::lemma_fundamental_div_mod(value as int, step as int);
    assert((below + 1) * step == below * step + step) by (nonlinear_arith);
    assert(step * below == below * step) by (nonlinear_arith);
}

/// A number of billionths, rounded to `places` digits behind the point.
///
/// A number below zero keeps its sign, also where nothing but zeros are left.
pub open spec fn fixed(billionths: int, places: nat) -> Seq<char> {
    let size = if billionths < 0 {
        -billionths
    } else {
        billionths
    };
    let units = nearest(size as nat, power_of_ten((9 - places) as nat));
    let one = power_of_ten(places);
    let sign = if billionths < 0 {
        seq!['-']
    } else {
        seq![]
    };
    let behind = if places == 0 {
        seq![]
    } else {
        seq!['.'] + zero_padded(decimal(units % one), places as int)
    };
    sign + decimal(units / one) + behind
}

/// Writes a number of billionths behind `s`, rounded to `places` digits behind the point.
pub fn push_fixed(s: &mut String, billionths: i64, places: u32)
    requires
        places <= 9,
    ensures
        final(s)@ == old(s)@ + fixed(billionths as int, places as nat),
{
    let size: u64 = if billionths < 0 {
        s.push('-');
        (-(billionths as i128)) as u64
    } else {
        billionths as u64
    };
    let step: u64 = ten_to(9 - places);
    let below: u64 = size / step;
    let rest: u64 = size % step;
    let units: u64 = if 2 * rest > step || (2 * rest == step && below % 2 == 1) {
        below + 1
    } else {
        below
    };
    let one: u64 = ten_to(places);
    let digits = digits_of((units / one) as u128);
    push_chars(s, &digits);
    if places > 0 {
        s.push('.');
        push_padded(s, (units % one) as u32, places as usize);
    }
    assert(s@ =~= old(s)@ + fixed(billionths as int, places as nat));
}

/// A number of millionths, rounded to three digits behind the point.
pub open spec fn thousandths(millionths: nat) -> Seq<char> {
    let units = nearest(millionths, 1000);
    decimal(units / 1000) + seq!['.'] + zero_padded(decimal(units % 1000), 3)
}

/// Writes a number of millionths behind `s`, rounded to three digits behind the point.
pub fn push_thousandths(s: &mut String, millionths: u128)
    ensures
        final(s)@ == old(s)@ + thousandths(millionths as nat),
{
    let below: u128 = millionths / 1000;
    let rest: u128 = millionths % 1000;
    let units: u128 = if 2 * rest > 1000 || (2 * rest == 1000 && below % 2 == 1) {
        below + 1
    } else {
        below
    };
    let digits = digits_of(units / 1000);
    push_chars(s, &digits);
    s.push('.');
    push_padded(s, (units % 1000) as u32, 3);
    assert(s@ =~= old(s)@ + thousandths(millionths as nat));
}

/// A number as its leading digits, in thousandths, times a power of ten.
#[derive(Clone, Copy, Debug, PartialEq, Eq, Structural)]
pub struct Scientific {
    pub thousandths: i32,
    pub exponent: i32,
}

impl Scientific {
    /// The number in text.
    pub open spec fn text(self) -> Seq<char> {
        fixed(self.thousandths * 1_000_000, 3) + seq!['e'] + signed(self.exponent as int)
    }

    /// Writes the number behind `s`.
    pub fn push_to(self, s: &mut String)
        ensures
            final(s)@ == old(s)@ + self.text(),
    {
        push_fixed(s, self.thousandths as i64 * 1_000_000, 3);
        s.push('e');
        push_signed(s, self.exponent as i64);
        assert(s@ =~= old(s)@ + self.text());
    }
}

/// A vector whose parts are in billionths.
#[derive(Clone, Copy, Debug, PartialEq, Eq, Structural)]
pub struct Vector {
    pub x: i64,
    pub y: i64,
    pub z: i64,
}

impl Vector {
    /// The parts in brackets, each rounded to `places` digits behind the point.
    pub open spec fn text(self, places: nat) -> Seq<char> {
        vector_text(self.x as int, self.y as int, self.z as int, places)
    }

    /// Writes the parts in brackets behind `s`.
    pub fn push_to(self, s: &mut String, places: u32)
        requires
            places <= 9,
        ensures
            final(s)@ == old(s)@ + self.text(places as nat),
    {
        s.append("(");
        push_fixed(s, self.x, places);
        s.append(", ");
        push_fixed(s, self.y, places);
        s.append(", ");
        push_fixed(s, self.z, places);
        s.append(")");
        assert(s@ =~= old(s)@ + self.text(places as nat));
    }
}

/// Three numbers of billionths in brackets.
pub open spec fn vector_text(x: int, y: int, z: int, places: nat) -> Seq<char> {
    "("@ + fixed(x, places) + ", "@ + fixed(y, places) + ", "@ + fixed(z, places) + ")"@
}

/// Zeros in front do not change what is read.
proof fn lemma_read_after_zeros(zeros: nat, s: Seq<char>, limit: nat, over: IntError)
    ensures
        read_digits(Seq::new(zeros, |i: int| '0') + s, limit, over) == read_digits(s, limit, over),
    decreases zeros, s.len(),
{
    let z = Seq::new(zeros, |i: int| '0');
    if s.len() == 0 {
        assert(z + s =~= z);
        if zeros > 0 {
            let fewer = Seq::new((zeros - 1) as nat, |i: int| '0');
            assert(z.drop_last() =~= fewer);
            lemma_read_after_zeros((zeros - 1) as nat, s, limit, over);
            assert(fewer + s =~= fewer);
            assert(z.last() == '0');
        }
    } else {
        assert((z + s).drop_last() =~= z + s.drop_last());
        lemma_read_after_zeros(zeros, s.drop_last(), limit, over);
        assert((z + s).last() == s.last());
    }
}

/// Reading the decimal digits of a number gives the number back.
pub proof fn lemma_read_decimal(n: nat, limit: nat, over: IntError)
    requires
        n <= limit,
    ensures
        read_digits(decimal(n), limit, over) == Ok::<nat, IntError>(n),
        decimal(n).len() > 0,
        forall|i: int| 0 <= i < decimal(n).len() ==> is_digit(#[trigger] decimal(n)[i]),
    decreases n,
{
    if n < 10 {
        assert(decimal(n).drop_last() =~= Seq::<char>::empty());
        assert(decimal(n).last() == digit_char(n));
        assert(read_digits(decimal(n).drop_last(), limit, over) == Ok::<nat, IntError>(0));
    } else {
        lemma_read_decimal(n / 10, limit, over);
        assert(decimal(n).drop_last() =~= decimal(n / 10));
        assert(decimal(n).last() == digit_char(n % 10));
        assert(digit_value(digit_char(n % 10)) == n % 10);
        assert((n / 10) * 10 + n % 10 == n);
    }
}

/// Reading a padded number gives the number back; it consists of digits alone.
pub proof fn lemma_read_padded(n: nat, width: int, limit: nat)
    requires
        n <= limit,
    ensures
        read_unsigned(zero_padded(decimal(n), width), limit) == Ok::<nat, IntError>(n),
        forall|i: int|
            0 <= i < zero_padded(decimal(n), width).len() ==> is_digit(
                #[trigger] zero_padded(decimal(n), width)[i],
            ),
        zero_padded(decimal(n), width).len() > 0,
{
    lemma_read_decimal(n, limit, IntError::PosOverflow);
    let s = zero_padded(decimal(n), width);
    if decimal(n).len() < width {
        lemma_read_after_zeros(
            (width - decimal(n).len()) as nat,
            decimal(n),
            limit,
            IntError::PosOverflow,
        );
    }
    assert(is_digit(s[0]));
    assert(s != seq!['+']) by {
        assert(s[0] != seq!['+'][0]);
    }
}

/// What is written in decimal reads back as the number: behind what stood there, digits alone.
pub proof fn lemma_written_numbers_read_back(s: &mut String, n: u64)
    requires
        call_ensures(push_decimal, (s, n), ()),
    ensures
        ({
            let written = final(s)@.skip(old(s)@.len() as int);
            &&& final(s)@ == old(s)@ + written
            &&& forall|i: int| 0 <= i < written.len() ==> '0' <= #[trigger] written[i] <= '9'
            &&& read_unsigned(written, u64::MAX as nat) == Ok::<nat, IntError>(n as nat)
            &&& n > 0 ==> written[0] != '0'
            &&& n == 0 ==> written == seq!['0']
        }),
{
    let digits = decimal(n as nat);
    let written = final(s)@.skip(old(s)@.len() as int);
    assert(written =~= digits);
    lemma_read_decimal(n as nat, u64::MAX as nat, IntError::PosOverflow);
    lemma_no_leading_zero(n as nat);
    assert forall|i: int| 0 <= i < written.len() implies '0' <= #[trigger] written[i] <= '9' by {
        assert(is_digit(digits[i]));
    }
    assert(is_digit(digits[0]));
}

proof fn lemma_no_leading_zero(n: nat)
    ensures
        decimal(n).len() > 0,
        n > 0 ==> decimal(n)[0] != '0',
        n == 0 ==> decimal(n) == seq!['0'],
    decreases n,
{
    if n >= 10 {
        lemma_no_leading_zero(n / 10);
        assert(decimal(n)[0] == decimal(n / 10)[0]);
    }
}

/// A padded number is at least as wide as asked for, and reads back as the number.
pub proof fn lemma_padded_numbers_read_back(s: &mut String, n: u32, width: usize)
    requires
        call_ensures(push_padded, (s, n, width), ()),
    ensures
        ({
            let written = final(s)@.skip(old(s)@.len() as int);
            &&& final(s)@ == old(s)@ + written
            &&& written.len() >= width
            &&& written.len() > width && written.len() > 1 ==> written[0] != '0'
            &&& read_unsigned(written, u32::MAX as nat) == Ok::<nat, IntError>(n as nat)
        }),
{
    let written = final(s)@.skip(old(s)@.len() as int);
    assert(written =~= zero_padded(decimal(n as nat), width as int));
    lemma_read_padded(n as nat, width as int, u32::MAX as nat);
    lemma_no_leading_zero(n as nat);
}

/// A number below zero is written with a minus sign in front of its size.
pub proof fn lemma_signs_are_written(s: &mut String, n: i64)
    requires
        call_ensures(push_signed, (s, n), ()),
    ensures
        ({
            let written = final(s)@.skip(old(s)@.len() as int);
            &&& final(s)@ == old(s)@ + written
            &&& read_signed(written, i64::MAX as nat) == Ok::<int, IntError>(n as int)
            &&& n < 0 <==> written[0] == '-'
        }),
{
    let written = final(s)@.skip(old(s)@.len() as int);
    assert(written =~= signed(n as int));
    let size: nat = if n < 0 {
        (-n) as nat
    } else {
        n as nat
    };
    let digits = decimal(size);
    lemma_read_decimal(size, i64::MAX as nat + 1, IntError::NegOverflow);
    assert(is_digit(digits[0]));
    if n < 0 {
        assert(written.skip(1) =~= digits);
        assert(written.len() > 1);
        assert(seq!['-'].len() == 1);
    } else {
        lemma_read_decimal(size, i64::MAX as nat, IntError::PosOverflow);
        assert(written =~= digits);
    }
}

/// A number with digits behind the point is off by no more than half of the last digit: whole part
/// and digits behind the point, read as one number of such digits, are the nearest there is.
pub proof fn lemma_fixed_numbers_are_near(s: &mut String, billionths: i64, places: u32)
    requires
        places <= 9,
        call_ensures(push_fixed, (s, billionths, places), ()),
    ensures
        ({
            let step = power_of_ten((9 - places) as nat);
            let one = power_of_ten(places as nat);
            let size = if billionths < 0 {
                -billionths
            } else {
                billionths as int
            };
            let written = final(s)@.skip(old(s)@.len() as int);
            let sign = if billionths < 0 {
                seq!['-']
            } else {
                seq![]
            };
            &&& final(s)@ == old(s)@ + written
            &&& exists|whole: nat, behind: nat|
                {
                    &&& behind < one
                    &&& 2 * size - step <= 2 * ((whole * one + behind) * step) <= 2 * size + step
                    &&& places == 0 ==> written == sign + #[trigger] decimal(whole)
                    &&& places > 0 ==> written == sign + #[trigger] decimal(whole) + seq!['.']
                        + zero_padded(#[trigger] decimal(behind), places as int)
                }
        }),
{
    let step = power_of_ten((9 - places) as nat);
    let one = power_of_ten(places as nat);
    let size: nat = if billionths < 0 {
        (-billionths) as nat
    } else {
        billionths as nat
    };
    let written = final(s)@.skip(old(s)@.len() as int);
    assert(written =~= fixed(billionths as int, places as nat));
    lemma_power_is_positive((9 - places) as nat);
    lemma_power_is_positive(places as nat);
    let units = nearest(size, step);
    lemma_rounding_is_near(size, step);
    let whole = units / one;
    let behind = units % one;
    vstd::arithmetic::div_mod::lemma_fundamental_div_mod(units as int, one as int);
    assert(whole * one + behind == units) by (nonlinear_arith)
        requires
            units == one * whole + behind,
    ;
    let sign = if billionths < 0 {
        seq!['-']
    } else {
        seq![]
    };
    assert(places == 0 ==> written =~= sign + decimal(whole));
    assert(places > 0 ==> written =~= sign + decimal(whole) + seq!['.'] + zero_padded(
        decimal(behind),
        places as int,
    ));
}

proof fn lemma_power_is_positive(exponent: nat)
    ensures
        power_of_ten(exponent) > 0,
    decreases exponent,
{
    if exponent > 0 {
        lemma_power_is_positive((exponent - 1) as nat);
    }
}

/// Each digit more makes a number ten times as large and adds its value, up to the largest number;
/// anything else than a digit is refused.
pub proof fn lemma_digits_are_read_one_by_one(
    s: Vec<char>,
    longer: Vec<char>,
    c: char,
    value: Result<u32, IntError>,
    next: Result<u32, IntError>,
)
    requires
        s@.len() > 0,
        s@ != seq!['+'],
        longer@ == s@.push(c),
        call_ensures(parse_u32, (&s,), value),
        call_ensures(parse_u32, (&longer,), next),
    ensures
        value matches Ok(v) ==> {
            let sum = v * 10 + (c as int - '0' as int);
            &&& '0' <= c <= '9' && sum <= u32::MAX ==> next == Ok::<u32, IntError>(sum as u32)
            &&& '0' <= c <= '9' && sum > u32::MAX ==> next == Err::<u32, IntError>(
                IntError::PosOverflow,
            )
            &&& !('0' <= c <= '9') ==> next == Err::<u32, IntError>(IntError::InvalidDigit)
        },
        value is Err ==> next == value,
{
    assert(longer@.len() > 1);
    assert(seq!['+'].len() == 1);
    if s@[0] == '+' {
        assert(longer@.skip(1).drop_last() =~= s@.skip(1));
        assert(longer@.skip(1).last() == c);
    } else {
        assert(longer@.drop_last() =~= s@);
    }
}

/// A single digit reads as its value; no text and a sign alone are refused.
pub proof fn lemma_one_digit_is_read(s: Vec<char>, value: Result<u32, IntError>)
    requires
        call_ensures(parse_u32, (&s,), value),
    ensures
        s@.len() == 0 ==> value == Err::<u32, IntError>(IntError::Empty),
        s@.len() == 1 && '0' <= s@[0] <= '9' ==> value == Ok::<u32, IntError>(
            (s@[0] as int - '0' as int) as u32,
        ),
        s@.len() == 1 && !('0' <= s@[0] <= '9') ==> value == Err::<u32, IntError>(
            IntError::InvalidDigit,
        ),
{
    reveal_with_fuel(read_digits, 2);
    if s@.len() == 1 {
        assert(s@.drop_last() =~= Seq::<char>::empty());
        if s@[0] == '+' {
            assert(s@ =~= seq!['+']);
        } else {
            assert(s@ != seq!['+']) by {
                assert(s@[0] != seq!['+'][0]);
            }
        }
    }
}

proof fn lemma_other_limit(s: Seq<char>, a: nat, over_a: IntError, b: nat, over_b: IntError)
    requires
        read_digits(s, a, over_a) is Ok,
    ensures
        ({
            let v = read_digits(s, a, over_a)->Ok_0;
            &&& v <= b ==> read_digits(s, b, over_b) == Ok::<nat, IntError>(v)
            &&& v > b ==> read_digits(s, b, over_b) == Err::<nat, IntError>(over_b)
        }),
    decreases s.len(),
{
    if s.len() > 0 {
        lemma_other_limit(s.drop_last(), a, over_a, b, over_b);
    }
}

/// A signed number is the unsigned one after its sign, up to its own limits.
pub proof fn lemma_signs_are_read(
    s: Vec<char>,
    minus: Vec<char>,
    value: u32,
    positive: Result<i32, IntError>,
    negative: Result<i32, IntError>,
)
    requires
        s@.len() > 0,
        '0' <= s@[0] <= '9',
        minus@ == seq!['-'] + s@,
        call_ensures(parse_u32, (&s,), Ok::<u32, IntError>(value)),
        call_ensures(parse_i32, (&s,), positive),
        call_ensures(parse_i32, (&minus,), negative),
    ensures
        value <= 0x7fff_ffff ==> positive == Ok::<i32, IntError>(value as i32),
        value > 0x7fff_ffff ==> positive == Err::<i32, IntError>(IntError::PosOverflow),
        value <= 0x8000_0000 ==> negative == Ok::<i32, IntError>((-value) as i32),
        value > 0x8000_0000 ==> negative == Err::<i32, IntError>(IntError::NegOverflow),
{
    assert(minus@.skip(1) =~= s@);
    assert(minus@.len() > 1 && seq!['-'].len() == 1);
    assert(s@ != seq!['+']) by {
        assert(s@[0] != seq!['+'][0]);
    }
    lemma_other_limit(
        s@,
        u32::MAX as nat,
        IntError::PosOverflow,
        i32::MAX as nat,
        IntError::PosOverflow,
    );
    lemma_other_limit(
        s@,
        u32::MAX as nat,
        IntError::PosOverflow,
        i32::MAX as nat + 1,
        IntError::NegOverflow,
    );
}

/// A number with three digits behind the point is off by no more than half of the last digit.
pub proof fn lemma_thousandths_are_near(s: &mut String, millionths: u128)
    requires
        call_ensures(push_thousandths, (s, millionths), ()),
    ensures
        ({
            let written = final(s)@.skip(old(s)@.len() as int);
            &&& final(s)@ == old(s)@ + written
            &&& exists|whole: nat, behind: nat|
                {
                    &&& behind < 1000
                    &&& 2 * millionths - 1000 <= 2000 * (1000 * whole + behind) <= 2 * millionths
                        + 1000
                    &&& written == #[trigger] decimal(whole) + seq!['.'] + zero_padded(
                        #[trigger] decimal(behind),
                        3,
                    )
                }
        }),
{
    let written = final(s)@.skip(old(s)@.len() as int);
    assert(written =~= thousandths(millionths as nat));
    assert(final(s)@ =~= old(s)@ + written);
    let units = nearest(millionths as nat, 1000);
    lemma_rounding_is_near(millionths as nat, 1000);
    let whole = units / 1000;
    let behind = units % 1000;
    assert(1000 * whole + behind == units);
    assert(written == decimal(whole) + seq!['.'] + zero_padded(decimal(behind), 3));
}

} // verus!
