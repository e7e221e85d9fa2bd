//! Numbers that are not integers, by their decimal text.
//!
//! A float is known by its shortest decimal text. What needs floating point arithmetic is
//! computed on the values behind the texts; everything else works on the decimal digits.
use crate::json::{Number, NumberView};
use crate::text;
use vstd::prelude::*;

verus! {

// ------------------------------------------------------------------ floating point

/// Whether one number, as a float, is smaller than another.
pub uninterp spec fn float_less(a: NumberView, b: NumberView) -> bool;

/// Whether two numbers, as floats, are equal.
pub uninterp spec fn float_equal(a: NumberView, b: NumberView) -> bool;

/// The sum of two numbers as floats; nothing where it is not finite.
pub uninterp spec fn float_sum(a: NumberView, b: NumberView) -> Option<NumberView>;

/// The difference of two numbers as floats; nothing where it is not finite.
pub uninterp spec fn float_difference(a: NumberView, b: NumberView) -> Option<NumberView>;

/// The product of two numbers as floats; nothing where it is not finite.
pub uninterp spec fn float_product(a: NumberView, b: NumberView) -> Option<NumberView>;

/// What Rust's parser of floats makes of a text: nothing where it is no float, and a float of
/// nothing where the float is not finite.
pub uninterp spec fn float_parsed(text: Seq<char>) -> Option<Option<NumberView>>;

/// The text in which Rust displays a number as a float.
pub uninterp spec fn float_display(n: NumberView) -> Seq<char>;

/// The number as a float.
pub uninterp spec fn float_of(n: NumberView) -> Option<NumberView>;

/// The whole part of a number as a float: none of it where the number is negative, and at most
/// the largest `u64`.
pub uninterp spec fn float_whole(n: NumberView) -> u64;

/// Carries a number over to `serde_json`, variant by variant. Nothing is stated of it on its
/// own: the functions below state what comes out of the calls it serves.
#[verifier::external_body]
pub(crate) fn to_serde(n: &Number) -> serde_json::Value {
    match n {
        Number::PosInt(u) => serde_json::Value::from(*u),
        Number::NegInt(i) => serde_json::Value::from(*i),
        Number::Float(t) => t.parse().ok().and_then(serde_json::Number::from_f64).into(),
    }
}

/// `<` on the results of `serde_json::Value::as_f64`; the outcome is named [`float_less`].
#[verifier::external_body]
pub(crate) fn is_less(a: &Number, b: &Number) -> (r: bool)
    ensures
        r == float_less(a@, b@),
{
    to_serde(a).as_f64() < to_serde(b).as_f64()
}

/// `==` on the results of `serde_json::Value::as_f64`; the outcome is named [`float_equal`].
#[verifier::external_body]
pub(crate) fn is_equal(a: &Number, b: &Number) -> (r: bool)
    ensures
        r == float_equal(a@, b@),
{
    to_serde(a).as_f64() == to_serde(b).as_f64()
}

/// `+` on the results of `serde_json::Value::as_f64`; the outcome is named [`float_sum`].
#[verifier::external_body]
pub(crate) fn sum(a: &Number, b: &Number) -> (r: Option<Number>)
    ensures
        text::opt_view(r) == float_sum(a@, b@),
{
    let total = to_serde(a).as_f64()? + to_serde(b).as_f64()?;
    serde_json::Number::from_f64(total).map(|n| Number::Float(n.to_string()))
}

/// `-` on the results of `serde_json::Value::as_f64`; the outcome is named
/// [`float_difference`].
#[verifier::external_body]
pub(crate) fn difference(a: &Number, b: &Number) -> (r: Option<Number>)
    ensures
        text::opt_view(r) == float_difference(a@, b@),
{
    let rest = to_serde(a).as_f64()? - to_serde(b).as_f64()?;
    serde_json::Number::from_f64(rest).map(|n| Number::Float(n.to_string()))
}

/// `*` on the results of `serde_json::Value::as_f64`; the outcome is named [`float_product`].
#[verifier::external_body]
pub(crate) fn product(a: &Number, b: &Number) -> (r: Option<Number>)
    ensures
        text::opt_view(r) == float_product(a@, b@),
{
    let scaled = to_serde(a).as_f64()? * to_serde(b).as_f64()?;
    serde_json::Number::from_f64(scaled).map(|n| Number::Float(n.to_string()))
}

/// `str::parse` to a float; the outcome is named [`float_parsed`]. A finite float is given by
/// its shortest decimal text.
#[verifier::external_body]
pub(crate) fn parse_float(s: &str) -> (r: Option<Option<Number>>)
    ensures
        float_parsed(s@) == (match r {
            Some(n) => Some(text::opt_view(n)),
            None => None,
        }),
{
    s.parse().ok().map(|f| serde_json::Number::from_f64(f).map(|n| Number::Float(n.to_string())))
}

/// `Display` of the result of `serde_json::Value::as_f64`; the outcome is named
/// [`float_display`].
#[verifier::external_body]
pub(crate) fn display_float(n: &Number) -> (r: String)
    ensures
        r@ == float_display(n@),
{
    to_serde(n).as_f64().map(|f| f.to_string()).unwrap_or_default()
}

/// `serde_json::Value::as_f64`; the outcome is named [`float_of`].
#[verifier::external_body]
pub(crate) fn as_float(n: &Number) -> (r: Option<Number>)
    ensures
        text::opt_view(r) == float_of(n@),
{
    let float = to_serde(n).as_f64()?;
    serde_json::Number::from_f64(float).map(|n| Number::Float(n.to_string()))
}

/// The cast to `u64` of the result of `serde_json::Value::as_f64`; the outcome is named
/// [`float_whole`].
#[verifier::external_body]
pub(crate) fn whole(n: &Number) -> (r: u64)
    ensures
        r == float_whole(n@),
{
    to_serde(n).as_f64().map(|f| f as u64).unwrap_or_default()
}

// ------------------------------------------------------------------ decimal digits

/// The number `0.digits` times ten to the power of `point`. The digits neither start nor end
/// with a zero; zero has no digits.
pub struct Decimal {
    pub negative: bool,
    pub digits: Vec<char>,
    pub point: i64,
}

/// What a [`Decimal`] stands for.
#[verifier::ext_equal]
pub struct DecimalView {
    pub negative: bool,
    pub digits: Seq<char>,
    pub point: int,
}

impl View for Decimal {
    type V = DecimalView;

    open spec fn view(&self) -> DecimalView {
        DecimalView { negative: self.negative, digits: self.digits@, point: self.point as int }
    }
}

/// How many zeros a text starts with.
pub open spec fn leading_zeros(s: Seq<char>) -> nat
    decreases s.len(),
{
    if s.len() > 0 && s[0] == '0' {
        1 + leading_zeros(s.drop_first())
    } else {
        0
    }
}

/// The text without the zeros at its end.
pub open spec fn without_zeros(s: Seq<char>) -> Seq<char>
    decreases s.len(),
{
    if s.len() > 0 && s.last() == '0' {
        without_zeros(s.drop_last())
    } else {
        s
    }
}

/// The decimal of digits with the point behind the first `point` of them.
pub open spec fn normalized(negative: bool, raw: Seq<char>, point: int) -> DecimalView {
    let zeros = leading_zeros(raw);
    let digits = without_zeros(raw.skip(zeros as int));
    DecimalView { negative, digits, point: if digits.len() == 0 { 0 } else { point - zeros } }
}

/// The exponent of a decimal text: what stands behind the `e`, where that is a number of
/// moderate size.
pub open spec fn exponent_of(body: Seq<char>) -> Option<int> {
    match text::find_char(body, 'e', 0) {
        Some(i) => match text::signed_value(body.skip(i + 1)) {
            Some(x) => if -100000 <= x <= 100000 { Some(x) } else { None },
            None => None,
        },
        None => Some(0),
    }
}

/// What stands before the `e`.
pub open spec fn mantissa_of(body: Seq<char>) -> Seq<char> {
    match text::find_char(body, 'e', 0) {
        Some(i) => body.take(i),
        None => body,
    }
}

/// What stands before the point.
pub open spec fn whole_part(mantissa: Seq<char>) -> Seq<char> {
    match text::find_char(mantissa, '.', 0) {
        Some(i) => mantissa.take(i),
        None => mantissa,
    }
}

/// What stands behind the point.
pub open spec fn fraction_part(mantissa: Seq<char>) -> Seq<char> {
    match text::find_char(mantissa, '.', 0) {
        Some(i) => mantissa.skip(i + 1),
        None => Seq::empty(),
    }
}

/// The decimal of a text: a sign, digits, a point and digits, an exponent. Nothing where the
/// text is of another form or very long.
pub open spec fn decimal_of(s: Seq<char>) -> Option<DecimalView> {
    let negative = s.len() > 0 && s[0] == '-';
    let body = if negative { s.skip(1) } else { s };
    let whole = whole_part(mantissa_of(body));
    let fraction = fraction_part(mantissa_of(body));
    if s.len() > 1000 || exponent_of(body) is None || !text::is_digits(whole) || !(fraction.len()
        == 0 || text::is_digits(fraction)) {
        None
    } else {
        Some(normalized(negative, whole + fraction, whole.len() + exponent_of(body).unwrap()))
    }
}

/// Whether all characters are digits.
fn all_digits(v: &Vec<char>) -> (r: bool)
    ensures
        r == (v@.len() == 0 || text::is_digits(v@)),
{
    let mut i: usize = 0;
    while i < v.len()
        invariant
            i <= v@.len(),
            forall|j: int| 0 <= j < i ==> text::is_digit(#[trigger] v@[j]),
        decreases v@.len() - i,
    {
        if !('0' <= v[i] && v[i] <= '9') {
            assert(!text::is_digit(v@[i as int]));
            return false;
        }
        i += 1;
    }
    true
}

/// A copy of the characters from `from` up to `to`.
pub(crate) fn between(v: &Vec<char>, from: usize, to: usize) -> (r: Vec<char>)
    requires
        from <= to <= v@.len(),
    ensures
        r@ == v@.subrange(from as int, to as int),
{
    let mut out: Vec<char> = Vec::new();
    let mut i: usize = from;
    while i < to
        invariant
            from <= i <= to <= v@.len(),
            out@ == v@.subrange(from as int, i as int),
        decreases to - i,
    {
        out.push(v[i]);
        i += 1;
    }
    out
}

fn normalize(negative: bool, raw: &Vec<char>, point: i64) -> (r: Decimal)
    requires
        raw@.len() <= 1000,
        -200000 <= point <= 200000,
    ensures
        r@ == normalized(negative, raw@, point as int),
        -201000 <= r.point <= 201000,
        r.digits@.len() <= 1000,
{
    let mut zeros: usize = 0;
    assert(raw@.skip(0) =~= raw@);
    while zeros < raw.len() && raw[zeros] == '0'
        invariant
            zeros <= raw@.len(),
            leading_zeros(raw@) == zeros + leading_zeros(raw@.skip(zeros as int)),
        decreases raw@.len() - zeros,
    {
        assert(raw@.skip(zeros as int).drop_first() =~= raw@.skip(zeros as int + 1));
        zeros += 1;
    }
    let mut digits = between(raw, zeros, raw.len());
    assert(digits@ =~= raw@.skip(zeros as int));
    while digits.len() > 0 && digits[digits.len() - 1] == '0'
        invariant
            digits@.len() <= 1000,
            without_zeros(digits@) == without_zeros(raw@.skip(zeros as int)),
        decreases digits@.len(),
    {
        digits.pop();
    }
    let point: i64 = if digits.len() == 0 { 0 } else { point - zeros as i64 };
    Decimal { negative, digits, point }
}

/// The decimal of a text.
pub fn read_decimal(s: &str) -> (r: Option<Decimal>)
    ensures
        text::opt_view(r) == decimal_of(s@),
        r is Some ==> -201000 <= r.unwrap().point <= 201000 && r.unwrap().digits@.len() <= 1000,
{
    let v = text::to_chars(s);
    if v.len() > 1000 {
        return None;
    }
    let negative = v.len() > 0 && v[0] == '-';
    let body = if negative { between(&v, 1, v.len()) } else { between(&v, 0, v.len()) };
    assert(body@ =~= if negative { s@.skip(1) } else { s@ });
    let (mantissa, exponent) = match text::find_char_at(&body, 'e', 0) {
        Some(i) => {
            let rest = text::slice_string(&body, i + 1, body.len());
            assert(rest@ =~= body@.skip(i as int + 1));
            let exponent = match text::parse_signed(rest.as_str()) {
                Some(x) => if -100000 <= x && x <= 100000 { Some(x) } else { None },
                None => None,
            };
            (between(&body, 0, i), exponent)
        },
        None => {
            let zero: i64 = 0;
            (between(&body, 0, body.len()), Some(zero))
        },
    };
    assert(mantissa@ =~= mantissa_of(body@));
    let (whole, fraction) = match text::find_char_at(&mantissa, '.', 0) {
        Some(i) => (between(&mantissa, 0, i), between(&mantissa, i + 1, mantissa.len())),
        None => {
            let none: Vec<char> = Vec::new();
            (between(&mantissa, 0, mantissa.len()), none)
        },
    };
    assert(whole@ =~= whole_part(mantissa@));
    assert(fraction@ =~= fraction_part(mantissa@));
    if whole.len() == 0 || !all_digits(&whole) || !all_digits(&fraction) {
        return None;
    }
    match exponent {
        Some(x) => {
            let point: i64 = whole.len() as i64 + x;
            let mut raw = whole;
            let mut rest = fraction;
            raw.append(&mut rest);
            Some(normalize(negative, &raw, point))
        },
        None => None,
    }
}

/// Zeros, one after the other.
pub open spec fn zeros(n: int) -> Seq<char> {
    Seq::new(if n < 0 { 0 } else { n as nat }, |i: int| '0')
}

/// The whole number that a decimal stands for, where it has no fraction.
pub open spec fn whole_number(d: DecimalView) -> Option<int> {
    if d.digits.len() == 0 {
        Some(0)
    } else if d.digits.len() <= d.point {
        let n = text::digits_value(d.digits + zeros(d.point - d.digits.len()));
        Some(if d.negative { -n } else { n })
    } else {
        None
    }
}

/// Whether the text of a float stands for a whole number.
pub open spec fn is_whole(s: Seq<char>) -> bool {
    match decimal_of(s) {
        Some(d) => d.digits.len() == 0 || d.digits.len() <= d.point,
        None => false,
    }
}

/// Whether the text of a float stands for a whole number.
pub fn is_whole_text(s: &str) -> (r: bool)
    ensures
        r == is_whole(s@),
{
    match read_decimal(s) {
        Some(d) => d.digits.len() == 0 || d.digits.len() as i64 <= d.point,
        None => false,
    }
}

/// The whole numbers below this bound are told apart by floats.
pub const SAFE_BOUND: u64 = 9_000_000_000_000_000;

/// The whole number of a decimal, where it has no fraction and is within the safe bound.
pub open spec fn safe_whole(d: DecimalView) -> Option<int> {
    match whole_number(d) {
        Some(n) => if -(SAFE_BOUND as int) < n < SAFE_BOUND { Some(n) } else { None },
        None => None,
    }
}

/// The whole number of a decimal, where it has no fraction and is within the safe bound.
pub fn safe_integer(d: &Decimal) -> (r: Option<i64>)
    requires
        d.digits@.len() == 0 || text::is_digits(d.digits@),
    ensures
        match r {
            Some(n) => safe_whole(d@) == Some(n as int),
            None => safe_whole(d@) is None,
        },
{
    if d.digits.len() == 0 {
        return Some(0);
    }
    if d.point < 0 || d.digits.len() as u64 > d.point as u64 {
        return None;
    }
    let mut all = between(&d.digits, 0, d.digits.len());
    let mut n: u64 = d.digits.len() as u64;
    assert(all@ =~= d.digits@ + zeros(0));
    while n < d.point as u64
        invariant
            d.point >= 0,
            d.digits@.len() <= n <= d.point,
            all@ == d.digits@ + zeros(n - d.digits@.len()),
        decreases d.point - n,
    {
        all.push('0');
        n += 1;
        assert(all@ =~= d.digits@ + zeros(n - d.digits@.len()));
    }
    assert(text::is_digits(all@));
    assert(all@.subrange(0, all@.len() as int) =~= all@);
    match text::digits_between(&all, 0, all.len()) {
        Some(value) => if value < SAFE_BOUND {
            if d.negative {
                Some(-(value as i64))
            } else {
                Some(value as i64)
            }
        } else {
            None
        },
        None => None,
    }
}

/// The integer of a number as JSON has it.
pub open spec fn int_number(n: int) -> NumberView {
    if n < 0 {
        NumberView::NegInt(n as i64)
    } else {
        NumberView::PosInt(n as u64)
    }
}

/// The integer of a number as JSON has it.
pub fn integer(n: i64) -> (r: Number)
    ensures
        r@ == int_number(n as int),
{
    if n < 0 {
        Number::NegInt(n)
    } else {
        Number::PosInt(n as u64)
    }
}

/// A float as JSON holds it where whole numbers are integers.
pub open spec fn compacted(n: NumberView) -> NumberView {
    match n {
        NumberView::Float(s) => match decimal_of(s) {
            Some(d) => match safe_whole(d) {
                Some(i) => int_number(i),
                None => n,
            },
            None => n,
        },
        _ => n,
    }
}

/// The digits that were read are digits.
pub proof fn lemma_decimal_digits(s: Seq<char>)
    ensures
        decimal_of(s) is Some ==> {
            let digits = decimal_of(s).unwrap().digits;
            digits.len() == 0 || text::is_digits(digits)
        },
{
    let negative = s.len() > 0 && s[0] == '-';
    let body = if negative { s.skip(1) } else { s };
    let raw = whole_part(mantissa_of(body)) + fraction_part(mantissa_of(body));
    lemma_leading_zeros(raw);
    lemma_without_zeros(raw.skip(leading_zeros(raw) as int));
}

proof fn lemma_leading_zeros(s: Seq<char>)
    ensures
        leading_zeros(s) <= s.len(),
    decreases s.len(),
{
    if s.len() > 0 && s[0] == '0' {
        lemma_leading_zeros(s.drop_first());
    }
}

proof fn lemma_without_zeros(s: Seq<char>)
    ensures
        without_zeros(s).len() <= s.len(),
        without_zeros(s) == s.take(without_zeros(s).len() as int),
    decreases s.len(),
{
    if s.len() > 0 && s.last() == '0' {
        lemma_without_zeros(s.drop_last());
        let n = without_zeros(s.drop_last()).len() as int;
        assert(s.drop_last().take(n) =~= s.take(n));
    } else {
        assert(s.take(s.len() as int) =~= s);
    }
}

/// A float as JSON holds it where whole numbers are integers.
pub fn compact_number(n: Number) -> (r: Number)
    ensures
        r@ == compacted(n@),
{
    match &n {
        Number::Float(s) => match read_decimal(s.as_str()) {
            Some(d) => {
                proof {
                    lemma_decimal_digits(s@);
                }
                match safe_integer(&d) {
                    Some(i) => integer(i),
                    None => n,
                }
            },
            None => n,
        },
        _ => n,
    }
}

// ------------------------------------------------------------------ text as in JavaScript

/// The text of an integer.
pub open spec fn int_text(n: int) -> Seq<char> {
    if n < 0 {
        "-"@ + text::decimal((-n) as nat)
    } else {
        text::decimal(n as nat)
    }
}

/// The text of an integer.
pub fn integer_text(n: i64) -> (r: String)
    ensures
        r@ == int_text(n as int),
{
    if n < 0 {
        let magnitude: u64 = if n == i64::MIN { 9223372036854775808 } else { (-n) as u64 };
        text::concat("-", text::decimal_text(magnitude).as_str())
    } else {
        text::decimal_text(n as u64)
    }
}

/// The text of a positive decimal as JavaScript shows it: in full where the point is within 21
/// places or at most six zeros follow it, else with an exponent.
pub open spec fn js_magnitude(digits: Seq<char>, n: int) -> Seq<char> {
    let k = digits.len() as int;
    if k <= n <= 21 {
        digits + zeros(n - k)
    } else if 0 < n <= 21 {
        digits.take(n) + "."@ + digits.skip(n)
    } else if -6 < n <= 0 {
        "0."@ + zeros(-n) + digits
    } else {
        let mantissa = if k == 1 {
            digits
        } else {
            digits.take(1) + "."@ + digits.skip(1)
        };
        let sign = if n - 1 >= 0 {
            "e+"@
        } else {
            "e"@
        };
        mantissa + sign + int_text(n - 1)
    }
}

/// The text of a decimal as JavaScript shows it.
pub open spec fn js_decimal(d: DecimalView) -> Seq<char> {
    if d.digits.len() == 0 {
        "0"@
    } else if d.negative {
        "-"@ + js_magnitude(d.digits, d.point)
    } else {
        js_magnitude(d.digits, d.point)
    }
}

/// The text of a number as JavaScript shows it.
pub open spec fn js_number(n: NumberView) -> Seq<char> {
    match n {
        NumberView::PosInt(u) => text::decimal(u as nat),
        NumberView::NegInt(i) => int_text(i as int),
        NumberView::Float(s) => match decimal_of(s) {
            Some(d) => js_decimal(d),
            None => s,
        },
    }
}

fn push_zeros(out: &mut String, n: i64)
    requires
        0 <= n <= 300000,
    ensures
        final(out)@ == old(out)@ + zeros(n as int),
{
    let ghost before = out@;
    let mut i: i64 = 0;
    assert(before + zeros(0) =~= before);
    while i < n
        invariant
            0 <= i <= n,
            out@ == before + zeros(i as int),
        decreases n - i,
    {
        out.push('0');
        i += 1;
        assert(out@ =~= before + zeros(i as int));
    }
}

fn magnitude_text(digits: &Vec<char>, n: i64) -> (r: String)
    requires
        1 <= digits@.len() <= 1000,
        -201000 <= n <= 201000,
    ensures
        r@ == js_magnitude(digits@, n as int),
{
    let k: i64 = digits.len() as i64;
    if k <= n && n <= 21 {
        let mut out = text::from_chars(digits);
        push_zeros(&mut out, n - k);
        out
    } else if 0 < n && n <= 21 {
        let mut out = text::slice_string(digits, 0, n as usize);
        assert(out@ =~= digits@.take(n as int));
        out.append(".");
        let rest = text::slice_string(digits, n as usize, digits.len());
        assert(rest@ =~= digits@.skip(n as int));
        out.append(rest.as_str());
        out
    } else if -6 < n && n <= 0 {
        let mut out = "0.".to_owned();
        push_zeros(&mut out, -n);
        out.append(text::from_chars(digits).as_str());
        out
    } else {
        let mut out = if k == 1 {
            text::from_chars(digits)
        } else {
            let mut m = text::slice_string(digits, 0, 1);
            assert(m@ =~= digits@.take(1));
            m.append(".");
            let rest = text::slice_string(digits, 1, digits.len());
            assert(rest@ =~= digits@.skip(1));
            m.append(rest.as_str());
            m
        };
        out.append(if n - 1 >= 0 { "e+" } else { "e" });
        out.append(integer_text(n - 1).as_str());
        out
    }
}

/// The text of a number as JavaScript shows it.
pub fn number_to_string(n: &Number) -> (r: String)
    ensures
        r@ == js_number(n@),
{
    match n {
        Number::PosInt(u) => text::decimal_text(*u),
        Number::NegInt(i) => integer_text(*i),
        Number::Float(s) => match read_decimal(s.as_str()) {
            Some(d) => {
                if d.digits.len() == 0 {
                    "0".to_owned()
                } else {
                    let magnitude = magnitude_text(&d.digits, d.point);
                    if d.negative {
                        text::concat("-", magnitude.as_str())
                    } else {
                        magnitude
                    }
                }
            },
            None => s.clone(),
        },
    }
}

} // verus!
