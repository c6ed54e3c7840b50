//! What the reports compute from stored values: pages, amounts for
//! display and kinds of content.

use crate::amount::{
    lemma_digits_concat, lemma_pow10_grows, lemma_single_digit, lemma_zeros, pow10,
    power_of_ten, zero_padded, AmountError,
};
use crate::inscription::textual;
use crate::text::{
    all_digits, chars_of, decimal, digit_char, digit_value, digits_value, find_char,
    has_prefix, is_digit, lemma_position_of, lowercase, lowercase_of, parse_bounded,
    parse_unsigned, position_of, push_decimal, same_chars, starts_with, sub_chars, text_of,
};
use vstd::prelude::*;

verus! {

/// The largest page that a report hands out.
pub const MAX_PAGE_SIZE: usize = 50000;

/// The page that a request asks for.
#[derive(Debug)]
pub struct PaginationParams {
    pub page: Option<usize>,
    pub limit: Option<usize>,
    pub q: Option<String>,
    pub tld: Option<String>,
}

impl PaginationParams {
    /// The page number and the page size: page 0 and 24 entries where the
    /// request names none, and never fewer than one entry nor more than
    /// `MAX_PAGE_SIZE`.
    pub fn resolve(&self) -> (r: (usize, usize))
        ensures
            r.0 == match self.page {
                Some(p) => p,
                None => 0,
            },
            r.1 == ({
                let asked = match self.limit {
                    Some(l) => l,
                    None => 24,
                };
                if asked < 1 {
                    1
                } else if asked > MAX_PAGE_SIZE {
                    MAX_PAGE_SIZE
                } else {
                    asked
                }
            }),
    {
        let page: usize = match self.page {
            Some(p) => p,
            None => 0,
        };
        let asked: usize = match self.limit {
            Some(l) => l,
            None => 24,
        };
        let limit: usize = if asked < 1 {
            1
        } else if asked > MAX_PAGE_SIZE {
            MAX_PAGE_SIZE
        } else {
            asked
        };
        (page, limit)
    }
}

/// The value of a displayed quantity in base units: the part before the
/// first point times ten to the power `decimals`, plus the digits between
/// the first and the second point, cut to `decimals` digits and filled up
/// with zeros. A quantity without a point is a whole number.
pub open spec fn displayed_value(s: Seq<char>, decimals: nat) -> Result<u128, AmountError> {
    let point = position_of(s, '.');
    let whole = parse_unsigned(s.take(point), u128::MAX as nat);
    let rest = s.skip(point + 1);
    let fraction = rest.take(position_of(rest, '.'));
    let cut = if fraction.len() > decimals {
        fraction.take(decimals as int)
    } else {
        fraction
    };
    let frac = if point < s.len() {
        parse_unsigned(zero_padded(cut, decimals), u128::MAX as nat)
    } else {
        Some(0nat)
    };
    if whole is None {
        Err(AmountError::BadWhole)
    } else if frac is None {
        Err(AmountError::BadFraction)
    } else if whole->0 * pow10(decimals) + frac->0 > u128::MAX {
        Err(AmountError::TooLarge)
    } else {
        Ok((whole->0 * pow10(decimals) + frac->0) as u128)
    }
}

/// Reads a displayed quantity as base units of a token with `decimals`
/// decimal places.
pub fn parse_decimal_amount(amount_str: &str, decimals: u32) -> (r: Result<u128, AmountError>)
    ensures
        r == displayed_value(amount_str@, decimals as nat),
{
    let s = chars_of(amount_str);
    let n: usize = s.len();
    let point: usize = find_char(&s, '.');
    let whole_part = sub_chars(&s, 0, point);
    assert(whole_part@ =~= s@.take(point as int));
    let whole: u128 = match parse_bounded(&whole_part, u128::MAX) {
        Some(w) => w,
        None => {
            return Err(AmountError::BadWhole);
        },
    };
    let frac: u128 = if point < n {
        let rest = sub_chars(&s, point + 1, n);
        assert(rest@ =~= s@.skip(point as int + 1));
        let stop: usize = find_char(&rest, '.');
        let width: usize = if stop as u64 > decimals as u64 {
            decimals as usize
        } else {
            stop
        };
        let mut digits = sub_chars(&rest, 0, width);
        let ghost fraction = rest@.take(stop as int);
        let ghost cut = if fraction.len() > decimals {
            fraction.take(decimals as int)
        } else {
            fraction
        };
        assert(digits@ =~= cut);
        while (digits.len() as u64) < decimals as u64
            invariant
                cut.len() <= digits.len() <= decimals,
                digits@ == cut + Seq::new((digits.len() - cut.len()) as nat, |i: int| '0'),
            decreases decimals - digits.len(),
        {
            digits.push('0');
            assert(digits@ =~= cut + Seq::new((digits.len() - cut.len()) as nat, |i: int| '0'));
        }
        assert(digits@ =~= zero_padded(cut, decimals as nat));
        match parse_bounded(&digits, u128::MAX) {
            Some(f) => f,
            None => {
                return Err(AmountError::BadFraction);
            },
        }
    } else {
        0
    };
    let scaled: u128 = if whole == 0 {
        assert(0 * pow10(decimals as nat) == 0) by (nonlinear_arith);
        0
    } else {
        match power_of_ten(decimals as u128) {
            None => {
                assert(whole * pow10(decimals as nat) > u128::MAX) by (nonlinear_arith)
                    requires
                        whole >= 1,
                        pow10(decimals as nat) > u128::MAX,
                ;
                return Err(AmountError::TooLarge);
            },
            Some(scale) => match whole.checked_mul(scale) {
                Some(v) => v,
                None => {
                    return Err(AmountError::TooLarge);
                },
            },
        }
    };
    match scaled.checked_add(frac) {
        Some(total) => Ok(total),
        None => Err(AmountError::TooLarge),
    }
}

/// The number that a text states, or zero where it states none that fits
/// 128 bits.
pub open spec fn number_or_zero(s: Seq<char>) -> nat {
    match parse_unsigned(s, u128::MAX as nat) {
        Some(n) => n,
        None => 0,
    }
}

/// The number that `value` states, or zero.
pub fn parse_u128(value: &str) -> (n: u128)
    ensures
        n == number_or_zero(value@),
{
    match parse_bounded(&chars_of(value), u128::MAX) {
        Some(n) => n,
        None => 0,
    }
}

/// `s` without its trailing zeros.
pub open spec fn without_trailing_zeros(s: Seq<char>) -> Seq<char>
    decreases s.len(),
{
    if s.len() > 0 && s.last() == '0' {
        without_trailing_zeros(s.drop_last())
    } else {
        s
    }
}

/// `s` behind as many zeros as it takes to reach the length `n`.
pub open spec fn zero_led(s: Seq<char>, n: nat) -> Seq<char> {
    if s.len() >= n {
        s
    } else {
        Seq::new((n - s.len()) as nat, |i: int| '0') + s
    }
}

/// An amount of base units as a decimal number with up to `decimals`
/// decimal places and no trailing zeros.
pub open spec fn supply_text(value: nat, decimals: nat) -> Seq<char> {
    let whole = value / pow10(decimals);
    let frac = value % pow10(decimals);
    let places = without_trailing_zeros(zero_led(decimal(frac), decimals));
    if frac == 0 || places.len() == 0 {
        decimal(whole)
    } else {
        decimal(whole) + seq!['.'] + places
    }
}

/// Writes the base units that `base_units` states as a decimal number of
/// a token with `decimals` decimal places.
pub fn format_supply_string(base_units: &str, decimals: u32) -> (r: String)
    ensures
        r@ == supply_text(number_or_zero(base_units@), decimals as nat),
{
    let value: u128 = parse_u128(base_units);
    let (whole, frac): (u128, u128) = match power_of_ten(decimals as u128) {
        Some(scale) => {
            proof {
                crate::amount::lemma_pow10_grows(0, decimals as nat);
            }
            (value / scale, value % scale)
        },
        None => {
            assert(value as nat / pow10(decimals as nat) == 0 && value as nat % pow10(
                decimals as nat,
            ) == value) by {
                vstd::arithmetic::div_mod::lemma_small_mod(value as nat, pow10(decimals as nat));
                vstd::arithmetic::div_mod::lemma_basic_div(
                    value as int,
                    pow10(decimals as nat) as int,
                );
            }
            (0, value)
        },
    };
    let mut out: Vec<char> = Vec::new();
    push_decimal(whole, &mut out);
    assert(out@ =~= decimal(whole as nat));
    if frac == 0 {
        return text_of(&out);
    }
    let mut digits: Vec<char> = Vec::new();
    push_decimal(frac, &mut digits);
    assert(digits@ =~= decimal(frac as nat));
    let mut places: Vec<char> = Vec::new();
    if (digits.len() as u64) < decimals as u64 {
        let fill: usize = decimals as usize - digits.len();
        while places.len() < fill
            invariant
                places.len() <= fill,
                places@ == Seq::new(places.len() as nat, |i: int| '0'),
            decreases fill - places.len(),
        {
            places.push('0');
            assert(places@ =~= Seq::new(places.len() as nat, |i: int| '0'));
        }
    }
    let ghost zeros = places@;
    places.append(&mut digits);
    assert(places@ =~= zero_led(decimal(frac as nat), decimals as nat)) by {
        assert(zeros + decimal(frac as nat) =~= zero_led(decimal(frac as nat), decimals as nat));
    }
    let ghost led = places@;
    while places.len() > 0 && places[places.len() - 1] == '0'
        invariant
            without_trailing_zeros(led) == without_trailing_zeros(places@),
        decreases places.len(),
    {
        let ghost before = places@;
        places.pop();
        assert(places@ =~= before.drop_last());
    }
    if places.len() == 0 {
        return text_of(&out);
    }
    out.push('.');
    out.append(&mut places);
    assert(out@ =~= decimal(whole as nat) + seq!['.'] + without_trailing_zeros(led));
    text_of(&out)
}

/// The decimal notation of a number is made of digits, at least one, and
/// states that number.
pub proof fn lemma_decimal(n: nat)
    ensures
        all_digits(decimal(n)),
        decimal(n).len() >= 1,
        digits_value(decimal(n)) == n,
    decreases n,
{
    if n < 10 {
        lemma_single_digit(digit_char(n));
        assert(is_digit(digit_char(n)));
        assert(digit_value(digit_char(n)) == n);
        assert(decimal(n)[0] == digit_char(n));
    } else {
        lemma_decimal(n / 10);
        let front = decimal(n / 10);
        let last = digit_char(n % 10);
        assert(is_digit(last));
        assert(digit_value(last) == n % 10);
        assert(decimal(n).drop_last() =~= front);
        assert(decimal(n).last() == last);
        assert forall|i: int| 0 <= i < decimal(n).len() implies is_digit(
            #[trigger] decimal(n)[i],
        ) by {
            if i < front.len() {
                assert(decimal(n)[i] == front[i]);
            }
        }
    }
}

/// A number below ten to the power `k` has at most `k` digits.
pub proof fn lemma_decimal_length(n: nat, k: nat)
    requires
        k >= 1,
        n < pow10(k),
    ensures
        decimal(n).len() <= k,
    decreases n,
{
    if n >= 10 {
        assert(pow10(1) == 10) by {
            assert(pow10(0) == 1);
        }
        if k == 1 {
            assert(false);
        }
        assert(pow10(k) == 10 * pow10((k - 1) as nat));
        lemma_decimal_length(n / 10, (k - 1) as nat);
    }
}

/// What is left without the trailing zeros is the beginning of the text,
/// does not end in a zero, and is followed by zeros only.
pub proof fn lemma_without_trailing_zeros(s: Seq<char>)
    ensures
        without_trailing_zeros(s).len() <= s.len(),
        s == without_trailing_zeros(s) + Seq::new(
            (s.len() - without_trailing_zeros(s).len()) as nat,
            |i: int| '0',
        ),
        without_trailing_zeros(s).len() > 0 ==> without_trailing_zeros(s).last() != '0',
    decreases s.len(),
{
    let t = without_trailing_zeros(s);
    if s.len() > 0 && s.last() == '0' {
        lemma_without_trailing_zeros(s.drop_last());
        let front = s.drop_last();
        assert(s =~= t + Seq::new((s.len() - t.len()) as nat, |i: int| '0')) by {
            assert(front == t + Seq::new((front.len() - t.len()) as nat, |i: int| '0'));
            assert(s =~= front.push('0'));
        }
    } else {
        assert(s =~= t + Seq::new(0nat, |i: int| '0'));
    }
}

/// What is shown of a supply reads back as the supply.
pub proof fn lemma_supply_round_trip(value: nat, decimals: nat)
    requires
        value <= u128::MAX,
    ensures
        displayed_value(supply_text(value, decimals), decimals) == Ok::<u128, AmountError>(
            value as u128,
        ),
{
    let scale = pow10(decimals);
    lemma_pow10_grows(0, decimals);
    let whole = value / scale;
    let frac = value % scale;
    assert(value == whole * scale + frac && frac < scale && whole <= value) by {
        vstd::arithmetic::div_mod::lemma_fundamental_div_mod(value as int, scale as int);
        vstd::arithmetic::div_mod::lemma_mod_bound(value as int, scale as int);
        vstd::arithmetic::div_mod::lemma_div_pos_is_pos(value as int, scale as int);
        assert(whole * scale == scale * whole) by (nonlinear_arith);
        assert(whole <= whole * scale) by (nonlinear_arith)
            requires
                scale >= 1,
                whole >= 0,
        ;
    }
    lemma_decimal(whole);
    let head = decimal(whole);
    let text = supply_text(value, decimals);
    let led = zero_led(decimal(frac), decimals);
    let places = without_trailing_zeros(led);
    assert(head[0] != '+' && is_digit(head[0]));
    if frac == 0 || places.len() == 0 {
        assert(text == head);
        lemma_position_of(text, '.', text.len() as int);
        assert(text.take(text.len() as int) =~= text);
        lemma_decimal(frac);
        lemma_without_trailing_zeros(led);
        if frac != 0 {
            lemma_digits_round(value, decimals);
            assert(false);
        }
    } else {
        lemma_digits_round(value, decimals);
        lemma_without_trailing_zeros(led);
        let p = head.len() as int;
        assert(text =~= head + seq!['.'] + places);
        assert(text[p] == '.');
        assert forall|k: int| 0 <= k < p implies text[k] != '.' by {
            assert(text[k] == head[k]);
            assert(is_digit(head[k]));
        }
        lemma_position_of(text, '.', p);
        assert(text.take(p) =~= head);
        let rest = text.skip(p + 1);
        assert(rest =~= places);
        assert forall|k: int| 0 <= k < places.len() implies places[k] != '.' by {
            assert(places[k] == led[k]);
            assert(is_digit(led[k]));
        }
        lemma_position_of(places, '.', places.len() as int);
        assert(places.take(places.len() as int) =~= places);
        assert(zero_padded(places, decimals) =~= led);
        assert(led[0] != '+' && is_digit(led[0]));
    }
}

/// The decimal places of a supply, led by zeros to their full number, are
/// digits that state the part of the supply below one token; they are not
/// all zeros where that part is not zero.
pub proof fn lemma_digits_round(value: nat, decimals: nat)
    requires
        value % pow10(decimals) != 0,
    ensures
        decimals >= 1,
        zero_led(decimal(value % pow10(decimals)), decimals).len() == decimals,
        all_digits(zero_led(decimal(value % pow10(decimals)), decimals)),
        digits_value(zero_led(decimal(value % pow10(decimals)), decimals)) == value % pow10(
            decimals,
        ),
        without_trailing_zeros(zero_led(decimal(value % pow10(decimals)), decimals)).len() > 0,
{
    let scale = pow10(decimals);
    lemma_pow10_grows(0, decimals);
    let frac = value % scale;
    vstd::arithmetic::div_mod::lemma_mod_bound(value as int, scale as int);
    if decimals == 0 {
        assert(pow10(0) == 1);
        assert(false);
    }
    lemma_decimal(frac);
    lemma_decimal_length(frac, decimals);
    let digits = decimal(frac);
    let fill = (decimals - digits.len()) as nat;
    let zeros = Seq::new(fill, |i: int| '0');
    let led = zero_led(digits, decimals);
    lemma_zeros(fill);
    assert(led =~= zeros + digits);
    lemma_digits_concat(zeros, digits);
    assert(0 * pow10(digits.len()) == 0) by (nonlinear_arith);
    assert forall|i: int| 0 <= i < led.len() implies is_digit(#[trigger] led[i]) by {
        if i < fill {
            assert(led[i] == zeros[i]);
        } else {
            assert(led[i] == digits[i - fill]);
        }
    }
    lemma_without_trailing_zeros(led);
    if without_trailing_zeros(led).len() == 0 {
        assert(led =~= Seq::new(led.len(), |i: int| '0'));
        lemma_zeros(led.len());
        assert(false);
    }
}

/// The quotient of `num` by `den` as the nearest whole number; where two
/// are equally near, the even one.
pub open spec fn rounded_quotient(num: nat, den: nat) -> nat {
    let q = num / den;
    let r = num % den;
    if 2 * r > den || (2 * r == den && q % 2 == 1) {
        q + 1
    } else {
        q
    }
}

/// The step between the counts that a binary number of 53 significant
/// digits can hold near `n`.
pub open spec fn count_step(n: nat) -> nat {
    if n < 9007199254740992 {
        1
    } else if n < 18014398509481984 {
        2
    } else if n < 36028797018963968 {
        4
    } else if n < 72057594037927936 {
        8
    } else if n < 144115188075855872 {
        16
    } else if n < 288230376151711744 {
        32
    } else if n < 576460752303423488 {
        64
    } else if n < 1152921504606846976 {
        128
    } else if n < 2305843009213693952 {
        256
    } else if n < 4611686018427387904 {
        512
    } else if n < 9223372036854775808 {
        1024
    } else {
        2048
    }
}

/// A count of bytes as a binary number of 53 significant digits holds it:
/// itself up to 2^53, and the nearest such number beyond.
pub open spec fn held_count(n: nat) -> nat {
    rounded_quotient(n, count_step(n)) * count_step(n)
}

/// How many bytes the unit holds in which a size is displayed: the
/// largest of KB, MB and GB that the size reaches.
pub open spec fn unit_size(n: nat) -> nat {
    if n < 1048576 {
        1024
    } else if n < 1073741824 {
        1048576
    } else {
        1073741824
    }
}

/// The name of the unit in which a size is displayed.
pub open spec fn unit_name(n: nat) -> Seq<char> {
    if n < 1048576 {
        " KB"@
    } else if n < 1073741824 {
        " MB"@
    } else {
        " GB"@
    }
}

/// A size as it is displayed: in bytes below 1024, and otherwise in KB,
/// MB or GB with one decimal place, rounded to the nearest tenth and to
/// the even one where two are equally near.
pub open spec fn byte_size_text(bytes: nat) -> Seq<char> {
    let tenths = rounded_quotient(held_count(bytes) * 10, unit_size(bytes));
    if bytes < 1024 {
        decimal(bytes) + " bytes"@
    } else {
        decimal(tenths / 10) + seq!['.'] + decimal(tenths % 10) + unit_name(bytes)
    }
}

/// The quotient of `num` by `den` as the nearest whole number.
fn round_quotient(num: u128, den: u128) -> (r: u128)
    requires
        den > 0,
        num < u128::MAX / 4,
        den < u128::MAX / 4,
    ensures
        r == rounded_quotient(num as nat, den as nat),
{
    let q: u128 = num / den;
    let r: u128 = num % den;
    if 2 * r > den || (2 * r == den && q % 2 == 1) {
        q + 1
    } else {
        q
    }
}

/// The step between the counts that can be held near `n`.
fn step_of(n: u64) -> (r: u64)
    ensures
        r == count_step(n as nat),
        1 <= r <= 2048,
{
    if n < 9007199254740992 {
        1
    } else if n < 18014398509481984 {
        2
    } else if n < 36028797018963968 {
        4
    } else if n < 72057594037927936 {
        8
    } else if n < 144115188075855872 {
        16
    } else if n < 288230376151711744 {
        32
    } else if n < 576460752303423488 {
        64
    } else if n < 1152921504606846976 {
        128
    } else if n < 2305843009213693952 {
        256
    } else if n < 4611686018427387904 {
        512
    } else if n < 9223372036854775808 {
        1024
    } else {
        2048
    }
}

/// Writes a size in bytes for display.
pub fn format_byte_size(bytes: usize) -> (r: String)
    ensures
        r@ == byte_size_text(bytes as nat),
{
    let n: u64 = bytes as u64;
    let mut out: Vec<char> = Vec::new();
    if n < 1024 {
        push_decimal(n as u128, &mut out);
        let mut unit = chars_of(" bytes");
        out.append(&mut unit);
        assert(out@ =~= decimal(bytes as nat) + " bytes"@);
        return text_of(&out);
    }
    let step: u64 = step_of(n);
    let steps: u128 = round_quotient(n as u128, step as u128);
    assert(steps <= n as u128 + 1) by {
        assert(n as nat / step as nat <= n as nat) by (nonlinear_arith)
            requires
                step >= 1,
        ;
    }
    assert(steps * step <= 18446744073709551616 * 2048) by (nonlinear_arith)
        requires
            steps <= 18446744073709551616,
            step <= 2048,
    ;
    let held: u128 = steps * step as u128;
    let (size, name): (u128, &str) = if n < 1048576 {
        (1024, " KB")
    } else if n < 1073741824 {
        (1048576, " MB")
    } else {
        (1073741824, " GB")
    };
    let tenths: u128 = round_quotient(held * 10, size);
    push_decimal(tenths / 10, &mut out);
    out.push('.');
    push_decimal(tenths % 10, &mut out);
    let mut unit = chars_of(name);
    out.append(&mut unit);
    assert(out@ =~= decimal((tenths / 10) as nat) + seq!['.'] + decimal((tenths % 10) as nat)
        + unit_name(bytes as nat));
    text_of(&out)
}

/// The kind of content that a content type stands for.
pub open spec fn mime_class(content_type: Seq<char>) -> Seq<char> {
    let lower = lowercase_of(content_type);
    if lower == "image/png"@ {
        "png"@
    } else if lower == "image/jpeg"@ || lower == "image/jpg"@ {
        "jpeg"@
    } else if lower == "image/gif"@ {
        "gif"@
    } else if lower == "image/svg+xml"@ {
        "svg"@
    } else if lower == "text/html"@ || lower == "application/xhtml+xml"@ {
        "html"@
    } else if lower == "text/javascript"@ || lower == "application/javascript"@ {
        "javascript"@
    } else if starts_with(lower, "text/"@) {
        "text"@
    } else if starts_with(lower, "audio/"@) {
        "audio"@
    } else if starts_with(lower, "video/"@) {
        "video"@
    } else if starts_with(lower, "model/"@) {
        "3d"@
    } else if starts_with(lower, "image/"@) {
        "image"@
    } else {
        "binary"@
    }
}

/// Whether `s` is the text `literal`.
fn is_text(s: &Vec<char>, literal: &str) -> (r: bool)
    ensures
        r == (s@ == literal@),
{
    same_chars(s, &chars_of(literal))
}

/// The beginning of a textual content that a feed shows: up to 240
/// characters of content whose type is text or JSON; nothing of other or
/// of empty content.
pub open spec fn preview_of(content_type: Seq<char>, content: Seq<char>) -> Option<Seq<char>> {
    if !textual(content_type) || content.len() == 0 {
        None
    } else if content.len() <= 240 {
        Some(content)
    } else {
        Some(content.take(240))
    }
}

/// The beginning of a textual content for a feed.
pub fn build_preview(content_type: &str, content: &str) -> (r: Option<String>)
    ensures
        match r {
            Some(p) => preview_of(content_type@, content@) == Some(p@),
            None => preview_of(content_type@, content@) is None,
        },
{
    let kind = chars_of(content_type);
    if !(has_prefix(&kind, &chars_of("text/")) || is_text(&kind, "application/json")) {
        return None;
    }
    let body = chars_of(content);
    if body.len() == 0 {
        return None;
    }
    if body.len() <= 240 {
        return Some(content.to_owned());
    }
    let head = sub_chars(&body, 0, 240);
    assert(head@ =~= content@.take(240));
    Some(text_of(&head))
}

/// Whether `s` begins with the text `literal`.
fn begins_with(s: &Vec<char>, literal: &str) -> (r: bool)
    ensures
        r == starts_with(s@, literal@),
{
    has_prefix(s, &chars_of(literal))
}

/// Names the kind of content that `content_type` stands for.
pub fn classify_mime(content_type: &str) -> (r: &'static str)
    ensures
        r@ == mime_class(content_type@),
{
    let lower = chars_of(lowercase(content_type).as_str());
    if is_text(&lower, "image/png") {
        "png"
    } else if is_text(&lower, "image/jpeg") || is_text(&lower, "image/jpg") {
        "jpeg"
    } else if is_text(&lower, "image/gif") {
        "gif"
    } else if is_text(&lower, "image/svg+xml") {
        "svg"
    } else if is_text(&lower, "text/html") || is_text(&lower, "application/xhtml+xml") {
        "html"
    } else if is_text(&lower, "text/javascript") || is_text(&lower, "application/javascript") {
        "javascript"
    } else if begins_with(&lower, "text/") {
        "text"
    } else if begins_with(&lower, "audio/") {
        "audio"
    } else if begins_with(&lower, "video/") {
        "video"
    } else if begins_with(&lower, "model/") {
        "3d"
    } else if begins_with(&lower, "image/") {
        "image"
    } else {
        "binary"
    }
}

} // verus!
