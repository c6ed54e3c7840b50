//! Token amounts written as decimal numbers, and their value in base units.

use crate::text::{
    all_digits, char_is_digit, chars_of, digit_value, digits_value, find_char, is_digit,
    lemma_position_bounds, only_digits, parse_bounded, parse_unsigned, position_of, sub_chars,
};
use vstd::prelude::*;

verus! {

/// Why a numeric field of an operation is refused.
#[derive(Debug, Clone, Copy, PartialEq, Eq, Structural)]
pub enum NumericError {
    Empty,
    MultipleDots,
    DotAtEdge,
    InvalidCharacters,
    /// The number, cut to the declared number of decimal places, is zero.
    Zero,
    /// The number in base units, cut to the declared number of decimal
    /// places, does not fit 128 bits.
    TooLarge,
}

/// Why a `dec` field is refused.
#[derive(Debug, Clone, Copy, PartialEq, Eq, Structural)]
pub enum DecimalsError {
    Empty,
    NotDigits,
    Invalid,
    TooLarge,
}

/// Why an amount has no value in base units.
#[derive(Debug, Clone, Copy, PartialEq, Eq, Structural)]
pub enum AmountError {
    /// The part before the point is no number that fits 128 bits.
    BadWhole,
    /// The part after the point, cut to the token's decimal places and
    /// filled up with zeros, is no number that fits 128 bits.
    BadFraction,
    /// The value in base units does not fit 128 bits.
    TooLarge,
}

/// How often `c` occurs in `s`.
pub open spec fn count_char(s: Seq<char>, c: char) -> nat
    decreases s.len(),
{
    if s.len() == 0 {
        0
    } else {
        count_char(s.drop_last(), c) + if s.last() == c {
            1nat
        } else {
            0nat
        }
    }
}

/// How often `c` occurs in `s`.
pub fn count_of(s: &Vec<char>, c: char) -> (n: usize)
    ensures
        n == count_char(s@, c),
{
    let mut n: usize = 0;
    let mut i: usize = 0;
    while i < s.len()
        invariant
            i <= s.len(),
            n <= i,
            n == count_char(s@.take(i as int), c),
        decreases s.len() - i,
    {
        assert(s@.take(i as int + 1).drop_last() =~= s@.take(i as int));
        if s[i] == c {
            n += 1;
        }
        i += 1;
    }
    assert(s@.take(s.len() as int) =~= s@);
    n
}

/// `s` without the character at position `p`.
pub open spec fn without(s: Seq<char>, p: int) -> Seq<char> {
    s.take(p) + s.skip(p + 1)
}

/// The digits of a numeric string: the string without its point.
pub open spec fn digits_of(s: Seq<char>) -> Seq<char> {
    if position_of(s, '.') < s.len() {
        without(s, position_of(s, '.'))
    } else {
        s
    }
}

/// The number of decimal places that a `dec` field allows for the other
/// fields of the same operation.
pub open spec fn declared_places(dec: Option<Seq<char>>) -> nat {
    match dec {
        Some(d) => match parse_unsigned(d, usize::MAX as nat) {
            Some(n) => n,
            None => 18,
        },
        None => 18,
    }
}

/// How many of the decimal places that a number gives are kept where
/// `places` are allowed: all of them, or the first `places`.
pub open spec fn kept_places(s: Seq<char>, places: nat) -> nat {
    let point = position_of(s, '.');
    let given = if point < s.len() {
        s.len() - point - 1
    } else {
        0
    };
    if given > places {
        places
    } else {
        given as nat
    }
}

/// The value of a number in base units at `places` decimal places, with
/// its decimal part clipped to the first `places` digits.
pub open spec fn clipped_units(s: Seq<char>, places: nat) -> nat {
    digits_value(digits_of(s).take(position_of(s, '.') + kept_places(s, places))) * pow10(
        (places - kept_places(s, places)) as nat,
    )
}

/// The verdict on a numeric field: the first rule that the string breaks.
/// A number is made of digits with at most one point, which stands
/// neither first nor last. Its decimal part is clipped to the number of
/// places that the operation declares; what is left is not zero, and in
/// base units it fits 128 bits.
pub open spec fn numeric_verdict(s: Seq<char>, dec: Option<Seq<char>>) -> Result<
    (),
    NumericError,
> {
    if s.len() == 0 {
        Err(NumericError::Empty)
    } else if count_char(s, '.') > 1 {
        Err(NumericError::MultipleDots)
    } else if s[0] == '.' || s.last() == '.' {
        Err(NumericError::DotAtEdge)
    } else if exists|i: int| 0 <= i < s.len() && !is_digit(#[trigger] s[i]) && s[i] != '.' {
        Err(NumericError::InvalidCharacters)
    } else if clipped_units(s, declared_places(dec)) == 0 {
        Err(NumericError::Zero)
    } else if clipped_units(s, declared_places(dec)) > u128::MAX {
        Err(NumericError::TooLarge)
    } else {
        Ok(())
    }
}

/// The verdict on a `dec` field.
pub open spec fn decimals_verdict(s: Seq<char>) -> Result<(), DecimalsError> {
    if s.len() == 0 {
        Err(DecimalsError::Empty)
    } else if !all_digits(s) {
        Err(DecimalsError::NotDigits)
    } else if digits_value(s) > u8::MAX {
        Err(DecimalsError::Invalid)
    } else if digits_value(s) > 18 {
        Err(DecimalsError::TooLarge)
    } else {
        Ok(())
    }
}

/// Ten to the power `n`.
pub open spec fn pow10(n: nat) -> nat
    decreases n,
{
    if n == 0 {
        1
    } else {
        10 * pow10((n - 1) as nat)
    }
}

/// `s` followed by as many zeros as it takes to reach the length `n`.
pub open spec fn zero_padded(s: Seq<char>, n: nat) -> Seq<char> {
    if s.len() >= n {
        s
    } else {
        s + Seq::new((n - s.len()) as nat, |i: int| '0')
    }
}

/// The number of decimal places of a token whose `dec` field is `decimals`.
pub open spec fn token_places(decimals: Seq<char>) -> nat {
    match parse_unsigned(decimals, u32::MAX as nat) {
        Some(n) => n,
        None => 18,
    }
}

/// The first `places` characters of a decimal part, or all of it where it
/// has no more.
pub open spec fn clipped(fraction: Seq<char>, places: nat) -> Seq<char> {
    if fraction.len() > places {
        fraction.take(places as int)
    } else {
        fraction
    }
}

/// The value of the amount `s` in base units of a token with the `dec`
/// field `decimals`: the part before the point times ten to the number of
/// decimal places, plus the part after the point, clipped to that number
/// of places and filled up with zeros.
pub open spec fn amount_value(s: Seq<char>, decimals: Seq<char>) -> Result<u128, AmountError> {
    let places = token_places(decimals);
    let point = position_of(s, '.');
    let whole_part = s.take(point);
    let frac_part = if point < s.len() {
        s.skip(point + 1)
    } else {
        Seq::empty()
    };
    let whole = if whole_part.len() == 0 {
        Some(0nat)
    } else {
        parse_unsigned(whole_part, u128::MAX as nat)
    };
    let padded = zero_padded(clipped(frac_part, places), places);
    let frac = if padded.len() == 0 {
        Some(0nat)
    } else {
        parse_unsigned(padded, u128::MAX as nat)
    };
    if whole is None {
        Err(AmountError::BadWhole)
    } else if frac is None {
        Err(AmountError::BadFraction)
    } else if whole->0 * pow10(places) + frac->0 > u128::MAX {
        Err(AmountError::TooLarge)
    } else {
        Ok((whole->0 * pow10(places) + frac->0) as u128)
    }
}

/// Checks a numeric field of an operation.
#[verifier::loop_isolation(false)]
pub fn validate_numeric_string(value: &str, dec: &Option<String>) -> (r: Result<(), NumericError>)
    ensures
        r == numeric_verdict(
            value@,
            match *dec {
                Some(d) => Some(d@),
                None => None,
            },
        ),
{
    let s = chars_of(value);
    let n: usize = s.len();
    if n == 0 {
        return Err(NumericError::Empty);
    }
    if count_of(&s, '.') > 1 {
        return Err(NumericError::MultipleDots);
    }
    if s[0] == '.' || s[n - 1] == '.' {
        return Err(NumericError::DotAtEdge);
    }
    let mut i: usize = 0;
    while i < n
        invariant
            i <= n,
            n == s.len(),
            forall|k: int| 0 <= k < i ==> is_digit(#[trigger] s@[k]) || s@[k] == '.',
        decreases n - i,
    {
        if !char_is_digit(s[i]) && s[i] != '.' {
            return Err(NumericError::InvalidCharacters);
        }
        i += 1;
    }
    let point: usize = find_char(&s, '.');
    let given: usize = if point < n {
        n - point - 1
    } else {
        0
    };
    let declared: u128 = match dec {
        Some(d) => match parse_bounded(&chars_of(d.as_str()), usize::MAX as u128) {
            Some(p) => p,
            None => 18,
        },
        None => 18,
    };
    let kept: usize = if given as u128 > declared {
        declared as usize
    } else {
        given
    };
    let all: Vec<char> = if point < n {
        let mut d = sub_chars(&s, 0, point);
        let mut tail = sub_chars(&s, point + 1, n);
        d.append(&mut tail);
        assert(d@ =~= without(s@, point as int));
        d
    } else {
        s
    };
    proof {
        lemma_single_point(value@);
        assert(all_digits(all@));
    }
    let digits = sub_chars(&all, 0, point + kept);
    assert(digits@ =~= all@.take(point + kept));
    assert(all_digits(digits@));
    let number = parse_bounded(&digits, u128::MAX);
    let ghost scale = pow10((declared - kept) as nat);
    proof {
        lemma_pow10_grows(0, (declared - kept) as nat);
    }
    if number == Some(0) {
        assert(0 * scale == 0) by (nonlinear_arith);
        return Err(NumericError::Zero);
    }
    assert(digits_value(digits@) * scale > 0) by (nonlinear_arith)
        requires
            digits_value(digits@) >= 1,
            scale >= 1,
    ;
    let whole: u128 = match number {
        Some(v) => v,
        None => {
            assert(digits_value(digits@) * scale > u128::MAX) by (nonlinear_arith)
                requires
                    digits_value(digits@) > u128::MAX,
                    scale >= 1,
            ;
            return Err(NumericError::TooLarge);
        },
    };
    match power_of_ten(declared - kept as u128) {
        None => {
            assert(whole * scale > u128::MAX) by (nonlinear_arith)
                requires
                    whole >= 1,
                    scale > u128::MAX,
            ;
            Err(NumericError::TooLarge)
        },
        Some(factor) => match whole.checked_mul(factor) {
            Some(_) => Ok(()),
            None => Err(NumericError::TooLarge),
        },
    }
}

/// A string with at most one point holds only digits once the first point
/// is taken out, provided it held nothing but digits and points.
pub proof fn lemma_single_point(s: Seq<char>)
    requires
        count_char(s, '.') <= 1,
        forall|k: int| 0 <= k < s.len() ==> is_digit(#[trigger] s[k]) || s[k] == '.',
    ensures
        all_digits(digits_of(s)),
        digits_of(s).len() > 0 || s.len() <= 1,
{
    let p = position_of(s, '.');
    lemma_position_bounds(s, '.');
    if p < s.len() {
        assert forall|k: int| p < k < s.len() implies s[k] != '.' by {
            if s[k] == '.' {
                lemma_count_two(s, '.', p, k);
            }
        }
        let d = without(s, p);
        assert forall|i: int| 0 <= i < d.len() implies is_digit(#[trigger] d[i]) by {
            if i < p {
                assert(d[i] == s[i]);
            } else {
                assert(d[i] == s[i + 1]);
            }
        }
    } else {
        assert forall|i: int| 0 <= i < s.len() implies is_digit(#[trigger] s[i]) by {}
    }
}

/// Two occurrences count as at least two.
pub proof fn lemma_count_two(s: Seq<char>, c: char, i: int, j: int)
    requires
        0 <= i < j < s.len(),
        s[i] == c,
        s[j] == c,
    ensures
        count_char(s, c) >= 2,
    decreases s.len(),
{
    if j == s.len() - 1 {
        lemma_count_one(s.drop_last(), c, i);
    } else {
        lemma_count_two(s.drop_last(), c, i, j);
    }
}

/// One occurrence counts as at least one.
pub proof fn lemma_count_one(s: Seq<char>, c: char, i: int)
    requires
        0 <= i < s.len(),
        s[i] == c,
    ensures
        count_char(s, c) >= 1,
    decreases s.len(),
{
    if i < s.len() - 1 {
        lemma_count_one(s.drop_last(), c, i);
    }
}

/// Checks a `dec` field.
pub fn validate_decimals(dec: &str) -> (r: Result<(), DecimalsError>)
    ensures
        r == decimals_verdict(dec@),
{
    let s = chars_of(dec);
    if s.len() == 0 {
        return Err(DecimalsError::Empty);
    }
    if !only_digits(&s) {
        return Err(DecimalsError::NotDigits);
    }
    assert(s@[0] != '+');
    match parse_bounded(&s, u8::MAX as u128) {
        None => Err(DecimalsError::Invalid),
        Some(v) => if v > 18 {
            Err(DecimalsError::TooLarge)
        } else {
            Ok(())
        },
    }
}

/// Ten to the power `n`, where it fits 128 bits.
pub fn power_of_ten(n: u128) -> (r: Option<u128>)
    ensures
        match r {
            Some(p) => p == pow10(n as nat),
            None => pow10(n as nat) > u128::MAX,
        },
{
    let mut p: u128 = 1;
    let mut i: u128 = 0;
    while i < n
        invariant
            i <= n,
            p == pow10(i as nat),
            p >= 1,
        decreases n - i,
    {
        match p.checked_mul(10) {
            Some(q) => {
                p = q;
            },
            None => {
                proof {
                    lemma_pow10_grows((i + 1) as nat, n as nat);
                }
                return None;
            },
        }
        i += 1;
    }
    Some(p)
}

/// Powers of ten are at least one and grow with their exponent.
pub proof fn lemma_pow10_grows(a: nat, b: nat)
    requires
        a <= b,
    ensures
        pow10(a) <= pow10(b),
        pow10(a) >= 1,
    decreases b,
{
    if a < b {
        lemma_pow10_grows(a, (b - 1) as nat);
    } else if a > 0 {
        lemma_pow10_grows((a - 1) as nat, (a - 1) as nat);
    }
}

/// The value of an amount in base units.
pub fn parse_amount(amount_str: &str, decimals: &str) -> (r: Result<u128, AmountError>)
    ensures
        r == amount_value(amount_str@, decimals@),
{
    let s = chars_of(amount_str);
    let places: u128 = match parse_bounded(&chars_of(decimals), u32::MAX as u128) {
        Some(p) => p,
        None => 18,
    };
    let n: usize = s.len();
    let point: usize = find_char(&s, '.');
    let whole_part = sub_chars(&s, 0, point);
    assert(whole_part@ =~= s@.take(point as int));
    let mut frac_part = if point < n {
        let f = sub_chars(&s, point + 1, n);
        assert(f@ =~= s@.skip(point as int + 1));
        f
    } else {
        Vec::new()
    };
    let whole: u128 = if whole_part.len() == 0 {
        0
    } else {
        match parse_bounded(&whole_part, u128::MAX) {
            Some(w) => w,
            None => {
                return Err(AmountError::BadWhole);
            },
        }
    };
    if frac_part.len() as u128 > places {
        frac_part = sub_chars(&frac_part, 0, places as usize);
    }
    let ghost frac_view = frac_part@;
    assert(frac_view =~= clipped(
        if point < n {
            s@.skip(point as int + 1)
        } else {
            Seq::empty()
        },
        places as nat,
    ));
    while (frac_part.len() as u128) < places
        invariant
            frac_view.len() <= frac_part.len() <= places,
            frac_part@ == frac_view + Seq::new(
                (frac_part.len() - frac_view.len()) as nat,
                |i: int| '0',
            ),
        decreases places - frac_part.len(),
    {
        let ghost before = frac_part@;
        frac_part.push('0');
        assert(frac_part@ =~= frac_view + Seq::new(
            (frac_part.len() - frac_view.len()) as nat,
            |i: int| '0',
        ));
    }
    assert(frac_part@ =~= zero_padded(frac_view, places as nat));
    let frac: u128 = if frac_part.len() == 0 {
        0
    } else {
        match parse_bounded(&frac_part, u128::MAX) {
            Some(f) => f,
            None => {
                return Err(AmountError::BadFraction);
            },
        }
    };
    let scaled: u128 = if whole == 0 {
        assert(0 * pow10(places as nat) == 0) by (nonlinear_arith);
        0
    } else {
        match power_of_ten(places) {
            None => {
                assert(whole * pow10(places as nat) > u128::MAX) by (nonlinear_arith)
                    requires
                        whole >= 1,
                        pow10(places as nat) > u128::MAX,
                ;
                return Err(AmountError::TooLarge);
            },
            Some(scale) => match whole.checked_mul(scale) {
                Some(v) => v,
                None => {
                    return Err(AmountError::TooLarge);
                },
            },
        }
    };
    match scaled.checked_add(frac) {
        Some(total) => Ok(total),
        None => Err(AmountError::TooLarge),
    }
}

/// The number that a text of decimal digits states, whatever its length.
pub open spec fn decimal_number(s: Seq<char>) -> Option<nat> {
    if s.len() > 0 && all_digits(s) {
        Some(digits_value(s))
    } else {
        None
    }
}

/// `s` without a plus sign that leads it.
pub open spec fn without_plus(s: Seq<char>) -> Seq<char> {
    if s.len() > 0 && s[0] == '+' {
        s.drop_first()
    } else {
        s
    }
}

/// `s` without a plus sign that leads it.
pub fn strip_plus(s: &Vec<char>) -> (r: Vec<char>)
    ensures
        r@ == without_plus(s@),
{
    if s.len() > 0 && s[0] == '+' {
        let r = sub_chars(s, 1, s.len());
        assert(r@ =~= s@.drop_first());
        r
    } else {
        let r = sub_chars(s, 0, s.len());
        assert(r@ =~= s@);
        r
    }
}

/// Digits written behind other digits: the others count ten times more
/// for each digit behind them.
pub proof fn lemma_digits_concat(a: Seq<char>, b: Seq<char>)
    ensures
        digits_value(a + b) == digits_value(a) * pow10(b.len()) + digits_value(b),
    decreases b.len(),
{
    if b.len() == 0 {
        assert(a + b =~= a);
        assert(digits_value(a) * 1 == digits_value(a)) by (nonlinear_arith);
    } else {
        let front = b.drop_last();
        assert((a + b).drop_last() =~= a + front);
        assert((a + b).last() == b.last());
        lemma_digits_concat(a, front);
        let va = digits_value(a);
        let p = pow10(front.len());
        assert(pow10(b.len()) == 10 * p);
        assert((va * p + digits_value(front)) * 10 == va * (10 * p) + digits_value(front) * 10)
            by (nonlinear_arith);
    }
}

/// A number of `n` digits is below ten to the power `n`.
pub proof fn lemma_digits_below(s: Seq<char>)
    requires
        all_digits(s),
    ensures
        digits_value(s) < pow10(s.len()),
    decreases s.len(),
{
    if s.len() > 0 {
        let front = s.drop_last();
        assert forall|i: int| 0 <= i < front.len() implies is_digit(#[trigger] front[i]) by {
            assert(front[i] == s[i]);
        }
        lemma_digits_below(front);
        assert(is_digit(s[s.len() - 1]));
    }
}

/// A number of `n` digits whose first digit is not zero is at least ten
/// to the power `n - 1`.
pub proof fn lemma_digits_at_least(s: Seq<char>)
    requires
        all_digits(s),
        s.len() > 0,
        s[0] != '0',
    ensures
        digits_value(s) >= pow10((s.len() - 1) as nat),
{
    let head = seq![s[0]];
    let rest = s.drop_first();
    assert(s =~= head + rest);
    lemma_digits_concat(head, rest);
    lemma_single_digit(s[0]);
    assert(is_digit(s[0]));
    assert(digits_value(head) >= 1);
    assert(digits_value(head) * pow10(rest.len()) >= pow10(rest.len())) by (nonlinear_arith)
        requires
            digits_value(head) >= 1,
    ;
}

/// A single digit states the number it stands for.
pub proof fn lemma_single_digit(c: char)
    ensures
        digits_value(seq![c]) == digit_value(c),
{
    assert(seq![c].drop_last() =~= Seq::<char>::empty());
    assert(seq![c].last() == c);
    assert(digits_value(Seq::<char>::empty()) == 0);
}

/// Where the digits of `s` begin that stand behind its leading zeros.
fn skip_zeros(s: &Vec<char>) -> (i: usize)
    requires
        all_digits(s@),
    ensures
        i <= s.len(),
        digits_value(s@.skip(i as int)) == digits_value(s@),
        i < s.len() ==> s@[i as int] != '0',
{
    let mut i: usize = 0;
    assert(s@.skip(0) =~= s@);
    while i < s.len() && s[i] == '0'
        invariant
            i <= s.len(),
            digits_value(s@.skip(i as int)) == digits_value(s@),
        decreases s.len() - i,
    {
        proof {
            let rest = s@.skip(i as int + 1);
            assert(s@.skip(i as int) =~= seq!['0'] + rest);
            lemma_digits_concat(seq!['0'], rest);
            lemma_single_digit('0');
            assert(0 * pow10(rest.len()) == 0) by (nonlinear_arith);
        }
        i += 1;
    }
    i
}

/// Whether `s` is a text of decimal digits.
pub fn is_decimal(s: &Vec<char>) -> (r: bool)
    ensures
        r == (decimal_number(s@) is Some),
{
    s.len() > 0 && only_digits(s)
}

/// Whether the number that the digits `a` state is below the number that
/// the digits `b` state; the numbers may be of any length.
pub fn decimal_less(a: &Vec<char>, b: &Vec<char>) -> (r: bool)
    requires
        all_digits(a@),
        all_digits(b@),
    ensures
        r == (digits_value(a@) < digits_value(b@)),
{
    let i: usize = skip_zeros(a);
    let j: usize = skip_zeros(b);
    let ghost x = a@.skip(i as int);
    let ghost y = b@.skip(j as int);
    let m: usize = a.len() - i;
    let n: usize = b.len() - j;
    proof {
        assert forall|k: int| 0 <= k < x.len() implies is_digit(#[trigger] x[k]) by {
            assert(x[k] == a@[i + k]);
        }
        assert forall|k: int| 0 <= k < y.len() implies is_digit(#[trigger] y[k]) by {
            assert(y[k] == b@[j + k]);
        }
        lemma_digits_below(x);
        lemma_digits_below(y);
    }
    if m < n {
        proof {
            lemma_digits_at_least(y);
            lemma_pow10_grows(m as nat, (n - 1) as nat);
        }
        return true;
    }
    if m > n {
        proof {
            lemma_digits_at_least(x);
            lemma_pow10_grows(n as nat, (m - 1) as nat);
        }
        return false;
    }
    let mut k: usize = 0;
    while k < m
        invariant
            k <= m,
            m == n,
            m == a.len() - i,
            n == b.len() - j,
            x == a@.skip(i as int),
            y == b@.skip(j as int),
            all_digits(x),
            all_digits(y),
            digits_value(x) == digits_value(a@),
            digits_value(y) == digits_value(b@),
            x.take(k as int) == y.take(k as int),
        decreases m - k,
    {
        let c: char = a[i + k];
        let d: char = b[j + k];
        if c != d {
            proof {
                let p = x.take(k as int);
                let ra = x.skip(k as int + 1);
                let rb = y.skip(k as int + 1);
                assert(x[k as int] == c && y[k as int] == d);
                assert(is_digit(x[k as int]) && is_digit(y[k as int]));
                assert(x =~= (p + seq![c]) + ra);
                assert(y =~= (p + seq![d]) + rb);
                lemma_digits_concat(p + seq![c], ra);
                lemma_digits_concat(p + seq![d], rb);
                assert((p + seq![c]).drop_last() =~= p);
                assert((p + seq![d]).drop_last() =~= p);
                assert((p + seq![c]).last() == c);
                assert((p + seq![d]).last() == d);
                assert(digits_value(p + seq![c]) == digits_value(p) * 10 + digit_value(c));
                assert(digits_value(p + seq![d]) == digits_value(p) * 10 + digit_value(d));
                assert forall|q: int| 0 <= q < ra.len() implies is_digit(#[trigger] ra[q]) by {
                    assert(ra[q] == x[k + 1 + q]);
                }
                assert forall|q: int| 0 <= q < rb.len() implies is_digit(#[trigger] rb[q]) by {
                    assert(rb[q] == y[k + 1 + q]);
                }
                lemma_digits_below(ra);
                lemma_digits_below(rb);
                let scale = pow10(ra.len());
                let hc = digits_value(p + seq![c]);
                let hd = digits_value(p + seq![d]);
                assert(ra.len() == rb.len());
                if c < d {
                    assert(hc + 1 <= hd);
                    assert(hc * scale + scale <= hd * scale) by (nonlinear_arith)
                        requires
                            hc + 1 <= hd,
                    ;
                } else {
                    assert(hd + 1 <= hc);
                    assert(hd * scale + scale <= hc * scale) by (nonlinear_arith)
                        requires
                            hd + 1 <= hc,
                    ;
                }
            }
            return c < d;
        }
        assert(x.take(k as int + 1) =~= x.take(k as int).push(x[k as int]));
        assert(y.take(k as int + 1) =~= y.take(k as int).push(y[k as int]));
        k += 1;
    }
    assert(x =~= x.take(m as int));
    assert(y =~= y.take(m as int));
    false
}

/// A run of zeros is made of digits and states zero.
pub proof fn lemma_zeros(m: nat)
    ensures
        all_digits(Seq::new(m, |i: int| '0')),
        digits_value(Seq::new(m, |i: int| '0')) == 0,
    decreases m,
{
    let z = Seq::new(m, |i: int| '0');
    if m > 0 {
        lemma_zeros((m - 1) as nat);
        assert(z.drop_last() =~= Seq::new((m - 1) as nat, |i: int| '0'));
        assert(z.last() == '0');
    }
}

/// Ten to the power of a sum is the product of the powers.
pub proof fn lemma_pow10_sum(a: nat, b: nat)
    ensures
        pow10(a + b) == pow10(a) * pow10(b),
    decreases b,
{
    if b == 0 {
        assert(pow10(a) * 1 == pow10(a)) by (nonlinear_arith);
    } else {
        lemma_pow10_sum(a, (b - 1) as nat);
        let x = pow10(a);
        let y = pow10((b - 1) as nat);
        assert(pow10(a + b) == 10 * pow10((a + b - 1) as nat));
        assert(10 * (x * y) == x * (10 * y)) by (nonlinear_arith);
    }
}

/// A number that passes as a field of an operation with the decimals
/// `decimals` has a value in base units of a token with those decimals:
/// the value that the field was judged on, which is not zero.
pub proof fn lemma_valid_amount(s: Seq<char>, decimals: Seq<char>)
    requires
        decimals_verdict(decimals) is Ok,
        numeric_verdict(s, Some(decimals)) is Ok,
    ensures
        token_places(decimals) == declared_places(Some(decimals)),
        0 < clipped_units(s, token_places(decimals)) <= u128::MAX,
        amount_value(s, decimals) == Ok::<u128, AmountError>(
            clipped_units(s, token_places(decimals)) as u128,
        ),
{
    let places = token_places(decimals);
    assert(decimals[0] != '+');
    assert(places == digits_value(decimals));
    let point = position_of(s, '.');
    lemma_position_bounds(s, '.');
    lemma_single_point(s);
    let kept = kept_places(s, places);
    let rest = (places - kept) as nat;
    lemma_pow10_sum(kept, rest);
    lemma_pow10_grows(0, places);
    lemma_pow10_grows(0, rest);
    lemma_pow10_grows(0, kept);
    let whole_part = s.take(point);
    assert(whole_part.len() > 0);
    assert(whole_part[0] == s[0]);
    assert(is_digit(s[0]));
    assert(whole_part[0] != '+');
    assert forall|i: int| 0 <= i < whole_part.len() implies is_digit(
        #[trigger] whole_part[i],
    ) by {
        assert(whole_part[i] == s[i]);
    }
    let w = digits_value(whole_part);
    if point < s.len() {
        let frac_part = s.skip(point + 1);
        let cut = clipped(frac_part, places);
        assert(digits_of(s) =~= whole_part + frac_part);
        assert(digits_of(s).take(point + kept) =~= whole_part + cut);
        assert forall|i: int| 0 <= i < cut.len() implies is_digit(#[trigger] cut[i]) by {
            assert(cut[i] == digits_of(s)[point + i]);
        }
        lemma_digits_concat(whole_part, cut);
        let f = digits_value(cut);
        let zeros = Seq::new(rest, |i: int| '0');
        let padded = zero_padded(cut, places);
        assert(padded =~= cut + zeros);
        lemma_zeros(rest);
        lemma_digits_concat(cut, zeros);
        assert(digits_value(padded) == f * pow10(rest));
        assert((w * pow10(kept) + f) * pow10(rest) == w * pow10(places) + f * pow10(rest))
            by (nonlinear_arith)
            requires
                pow10(places) == pow10(kept) * pow10(rest),
        ;
        assert(clipped_units(s, places) == w * pow10(places) + f * pow10(rest));
        assert(w <= w * pow10(places)) by (nonlinear_arith)
            requires
                pow10(places) >= 1,
        ;
        assert(frac_part.len() > 0);
        assert(cut.len() > 0 || places == 0);
        if padded.len() > 0 {
            assert(padded[0] != '+') by {
                if cut.len() > 0 {
                    assert(padded[0] == cut[0]);
                    assert(is_digit(cut[0]));
                } else {
                    assert(padded[0] == zeros[0]);
                }
            }
            assert forall|i: int| 0 <= i < padded.len() implies is_digit(
                #[trigger] padded[i],
            ) by {
                if i < cut.len() {
                    assert(padded[i] == cut[i]);
                } else {
                    assert(padded[i] == zeros[i - cut.len()]);
                }
            }
        } else {
            assert(cut.len() == 0);
            assert(f == 0);
            assert(f * pow10(rest) == 0) by (nonlinear_arith)
                requires
                    f == 0,
            ;
        }
    } else {
        assert(whole_part =~= s);
        assert(digits_of(s).take(point + kept) =~= s);
        let zeros = Seq::new(places, |i: int| '0');
        let padded = zero_padded(Seq::<char>::empty(), places);
        assert(clipped(Seq::<char>::empty(), places) =~= Seq::<char>::empty());
        assert(padded =~= zeros);
        lemma_zeros(places);
        assert(w <= w * pow10(places)) by (nonlinear_arith)
            requires
                pow10(places) >= 1,
        ;
        if places > 0 {
            assert(padded[0] == '0');
        }
    }
}

} // verus!
