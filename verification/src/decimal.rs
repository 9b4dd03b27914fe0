//! Chapter numbers: decimal numbers such as 10 or 10.5.
//!
//! Parsing, printing, ordering and truncation are those of the `rust_decimal` crate. A number is
//! held as its mantissa and its scale, the number of digits after the point.
use crate::config;
use crate::text;
use rust_decimal::Decimal;
use vstd::prelude::*;

verus! {

/// The largest mantissa of a decimal: 96 bits.
pub const MAX_MANTISSA: i128 = 79_228_162_514_264_337_593_543_950_335;

/// The largest number of digits after the point.
pub const MAX_SCALE: u32 = 28;

/// Ten to the power `n`.
pub open spec fn pow10(n: nat) -> int
    decreases n,
{
    if n == 0 {
        1
    } else {
        10 * pow10((n - 1) as nat)
    }
}

/// Whether a mantissa and a scale make a decimal.
pub open spec fn in_range(mantissa: int, scale: int) -> bool {
    -MAX_MANTISSA <= mantissa <= MAX_MANTISSA && 0 <= scale <= MAX_SCALE
}

/// The value of a decimal, times ten to the largest scale.
pub open spec fn scaled(mantissa: int, scale: int) -> int {
    mantissa * pow10((MAX_SCALE - scale) as nat)
}

/// The last `width` decimal digits of `n`.
pub open spec fn padded_digits(n: nat, width: nat) -> Seq<char>
    decreases width,
{
    if width == 0 {
        Seq::empty()
    } else {
        padded_digits(n / 10, (width - 1) as nat).push(text::digit_char(n % 10))
    }
}

/// The magnitude of a number.
pub open spec fn magnitude(n: int) -> nat {
    if n < 0 {
        (-n) as nat
    } else {
        n as nat
    }
}

/// The printed form of a decimal: sign, whole part, and `scale` digits after a point.
pub open spec fn decimal_text(mantissa: int, scale: int) -> Seq<char> {
    let sign = if mantissa < 0 {
        seq!['-']
    } else {
        Seq::empty()
    };
    let unit = pow10(scale as nat) as nat;
    let whole = text::digits(magnitude(mantissa) / unit);
    if scale == 0 {
        sign + whole
    } else {
        sign + whole + seq!['.'] + padded_digits(magnitude(mantissa) % unit, scale as nat)
    }
}

/// The whole part of a decimal, towards zero.
pub open spec fn whole_part(mantissa: int, scale: int) -> int {
    let whole = magnitude(mantissa) as int / pow10(scale as nat);
    if mantissa < 0 {
        -whole
    } else {
        whole
    }
}

/// What the decimal parser makes of a string: mantissa and scale, or nothing where it is not a
/// decimal that can be held without rounding.
pub uninterp spec fn parsed_decimal(s: Seq<char>) -> Option<(int, int)>;

/// Whether a string is made of what a decimal is written with: digits, of which there is one at
/// least, points and underscores, after a sign where there is one.
pub open spec fn is_readable(s: Seq<char>) -> bool {
    &&& exists|i: int| 0 <= i < s.len() && '0' <= #[trigger] s[i] <= '9'
    &&& forall|i: int|
        0 <= i < s.len() ==> ('0' <= #[trigger] s[i] <= '9' || s[i] == '.' || s[i] == '_' || (i == 0
            && (s[i] == '+' || s[i] == '-')))
}

/// `Decimal::from_str_exact` reads a decimal number and refuses whatever it would have to round.
/// What it reads is a decimal, and the printed form of a decimal is read back as that decimal. It
/// refuses a string without a digit, and one with a character that no decimal is written with.
#[verifier::external_body]
fn decimal_parse(s: &str) -> (r: Option<(i128, u32)>)
    ensures
        match r {
            Some((m, e)) => parsed_decimal(s@) == Some((m as int, e as int)) && in_range(
                m as int,
                e as int,
            ),
            None => parsed_decimal(s@) is None,
        },
        forall|m: int, e: int|
            in_range(m, e) && s@ == #[trigger] decimal_text(m, e) ==> r == Some(
                (m as i128, e as u32),
            ),
        r is Some ==> is_readable(s@),
{
    Decimal::from_str_exact(s).ok().map(|d| (d.mantissa(), d.scale()))
}

/// `Decimal`'s `<=` compares two decimals by value.
#[verifier::external_body]
fn decimal_le(m1: i128, e1: u32, m2: i128, e2: u32) -> (b: bool)
    requires
        in_range(m1 as int, e1 as int),
        in_range(m2 as int, e2 as int),
    ensures
        b == (scaled(m1 as int, e1 as int) <= scaled(m2 as int, e2 as int)),
{
    Decimal::from_i128_with_scale(m1, e1) <= Decimal::from_i128_with_scale(m2, e2)
}

/// `Decimal`'s `Display` prints the sign, the whole part, and as many digits after the point as
/// the scale says.
#[verifier::external_body]
fn decimal_show(m: i128, e: u32) -> (s: String)
    requires
        in_range(m as int, e as int),
    ensures
        s@ == decimal_text(m as int, e as int),
{
    Decimal::from_i128_with_scale(m, e).to_string()
}

/// `Decimal::trunc` drops the digits after the point.
#[verifier::external_body]
fn decimal_trunc(m: i128, e: u32) -> (whole: i128)
    requires
        in_range(m as int, e as int),
    ensures
        whole == whole_part(m as int, e as int),
{
    Decimal::from_i128_with_scale(m, e).trunc().mantissa()
}

/// The number of a chapter.
#[derive(Debug, Clone, Copy)]
pub struct ChapterNumber {
    /// The digits, without the point.
    pub mantissa: i128,
    /// How many of the digits stand after the point.
    pub scale: u32,
}

impl ChapterNumber {
    /// Whether the fields make a decimal.
    pub open spec fn wf(self) -> bool {
        in_range(self.mantissa as int, self.scale as int)
    }

    /// The value, times ten to the largest scale; numbers are ordered and equal by it.
    pub open spec fn value(self) -> int {
        scaled(self.mantissa as int, self.scale as int)
    }

    /// The printed form.
    pub open spec fn text(self) -> Seq<char> {
        decimal_text(self.mantissa as int, self.scale as int)
    }

    /// What the decimal parser makes of a string.
    pub open spec fn parsed(s: Seq<char>) -> Option<ChapterNumber> {
        match parsed_decimal(s) {
            Some((m, e)) => Some(ChapterNumber { mantissa: m as i128, scale: e as u32 }),
            None => None,
        }
    }

    /// Zero.
    pub fn zero() -> (n: ChapterNumber)
        ensures
            n.wf(),
            n.value() == 0,
            n.mantissa == 0,
            n.scale == 0,
    {
        ChapterNumber { mantissa: 0, scale: 0 }
    }

    /// Reads a number; whatever would have to be rounded is refused, and so is what a number is not
    /// written with. A printed number is read back unchanged.
    pub fn parse(s: &str) -> (r: Option<ChapterNumber>)
        ensures
            r == ChapterNumber::parsed(s@),
            r matches Some(n) ==> n.wf(),
            r is Some ==> is_readable(s@),
            forall|n: ChapterNumber| n.wf() && s@ == #[trigger] n.text() ==> r == Some(n),
    {
        let r = match decimal_parse(s) {
            Some((mantissa, scale)) => Some(ChapterNumber { mantissa, scale }),
            None => None,
        };
        assert forall|n: ChapterNumber| n.wf() && s@ == #[trigger] n.text() implies r == Some(
            n,
        ) by {
            assert(s@ == decimal_text(n.mantissa as int, n.scale as int));
        }
        r
    }

    /// Whether this number is at most the other one.
    pub fn at_most(self, other: ChapterNumber) -> (b: bool)
        requires
            self.wf(),
            other.wf(),
        ensures
            b == (self.value() <= other.value()),
    {
        decimal_le(self.mantissa, self.scale, other.mantissa, other.scale)
    }

    /// Whether this number has the value of the other one.
    pub fn same_as(self, other: ChapterNumber) -> (b: bool)
        requires
            self.wf(),
            other.wf(),
        ensures
            b == (self.value() == other.value()),
    {
        self.at_most(other) && other.at_most(self)
    }

    /// Prints the number.
    pub fn to_text(self) -> (s: String)
        requires
            self.wf(),
        ensures
            s@ == self.text(),
    {
        decimal_show(self.mantissa, self.scale)
    }

    /// The number without its digits after the point.
    pub fn trunc(self) -> (n: ChapterNumber)
        requires
            self.wf(),
        ensures
            n.wf(),
            n.scale == 0,
            n.mantissa == whole_part(self.mantissa as int, self.scale as int),
    {
        let mantissa = decimal_trunc(self.mantissa, self.scale);
        proof {
            lemma_whole_part_range(self.mantissa as int, self.scale as int);
        }
        ChapterNumber { mantissa, scale: 0 }
    }
}

/// Powers of ten are positive.
pub proof fn lemma_pow10_positive(n: nat)
    ensures
        pow10(n) > 0,
    decreases n,
{
    if n > 0 {
        lemma_pow10_positive((n - 1) as nat);
    }
}

proof fn lemma_whole_part_range(mantissa: int, scale: int)
    requires
        in_range(mantissa, scale),
    ensures
        in_range(whole_part(mantissa, scale), 0),
{
    let unit = pow10(scale as nat);
    lemma_pow10_positive(scale as nat);
    let m = magnitude(mantissa) as int;
    assert(0 <= m / unit <= m) by (nonlinear_arith)
        requires
            m >= 0,
            unit > 0,
    ;
}

proof fn lemma_pow10_adds(a: nat, b: nat)
    ensures
        pow10(a) * pow10(b) == pow10(a + b),
    decreases a,
{
    if a == 0 {
        assert(1 * pow10(b) == pow10(b));
    } else {
        lemma_pow10_adds((a - 1) as nat, b);
        let p = pow10((a - 1) as nat);
        let q = pow10(b);
        assert((10 * p) * q == 10 * (p * q)) by (nonlinear_arith);
    }
}

proof fn lemma_whole_of_scaled(mantissa: int, scale: int)
    requires
        mantissa >= 0,
        0 <= scale <= MAX_SCALE,
    ensures
        whole_part(mantissa, scale) == scaled(mantissa, scale) / pow10(MAX_SCALE as nat),
{
    let a = pow10(scale as nat);
    let b = pow10((MAX_SCALE - scale) as nat);
    lemma_pow10_positive(scale as nat);
    lemma_pow10_positive((MAX_SCALE - scale) as nat);
    lemma_pow10_adds(scale as nat, (MAX_SCALE - scale) as nat);
    assert(b * a == a * b) by (nonlinear_arith);
    vstd::arithmetic::div_mod::lemma_div_by_multiple(mantissa, b);
    assert(mantissa * b >= 0) by (nonlinear_arith)
        requires
            mantissa >= 0,
            b > 0,
    ;
    vstd::arithmetic::div_mod::lemma_div_denominator(mantissa * b, b, a);
}

/// The whole part grows with the value.
pub proof fn lemma_whole_part_monotone(a: ChapterNumber, b: ChapterNumber)
    requires
        a.wf(),
        b.wf(),
        0 <= a.mantissa,
        a.value() <= b.value(),
    ensures
        0 <= b.mantissa,
        0 <= whole_part(a.mantissa as int, a.scale as int) <= whole_part(
            b.mantissa as int,
            b.scale as int,
        ),
{
    let pa = pow10((MAX_SCALE - a.scale) as nat);
    let pb = pow10((MAX_SCALE - b.scale) as nat);
    lemma_pow10_positive((MAX_SCALE - a.scale) as nat);
    lemma_pow10_positive((MAX_SCALE - b.scale) as nat);
    lemma_pow10_positive(MAX_SCALE as nat);
    let ma = a.mantissa as int;
    let mb = b.mantissa as int;
    assert(ma * pa >= 0) by (nonlinear_arith)
        requires
            ma >= 0,
            pa > 0,
    ;
    if mb < 0 {
        assert(mb * pb < 0) by (nonlinear_arith)
            requires
                mb < 0,
                pb > 0,
        ;
    }
    lemma_whole_of_scaled(ma, a.scale as int);
    lemma_whole_of_scaled(mb, b.scale as int);
    vstd::arithmetic::div_mod::lemma_div_is_ordered(
        a.value(),
        b.value(),
        pow10(MAX_SCALE as nat),
    );
    vstd::arithmetic::div_mod::lemma_div_pos_is_pos(a.value(), pow10(MAX_SCALE as nat));
}

// ---------------------------------------------------------------------------------------------
// Laws
// ---------------------------------------------------------------------------------------------

/// Numbers are ordered as the fractions that they are written as: with as many zeros added as the
/// other one has digits after its point, the larger one has the larger digits.
pub proof fn law_order_of_numbers(a: ChapterNumber, b: ChapterNumber)
    requires
        a.wf(),
        b.wf(),
    ensures
        pow10(0) == 1,
        pow10(1) == 10,
        pow10((a.scale + b.scale) as nat) == pow10(a.scale as nat) * pow10(b.scale as nat),
        a.value() <= b.value() <==> a.mantissa * pow10(b.scale as nat) <= b.mantissa * pow10(
            a.scale as nat,
        ),
        a.scale == b.scale ==> (a.value() <= b.value() <==> a.mantissa <= b.mantissa),
{
    reveal_with_fuel(pow10, 2);
    lemma_pow10_adds(a.scale as nat, b.scale as nat);
    lemma_pow10_adds(a.scale as nat, (MAX_SCALE - a.scale) as nat);
    lemma_pow10_adds(b.scale as nat, (MAX_SCALE - b.scale) as nat);
    lemma_pow10_positive(a.scale as nat);
    lemma_pow10_positive(b.scale as nat);
    lemma_pow10_positive(MAX_SCALE as nat);
    let (pa, pb) = (pow10(a.scale as nat), pow10(b.scale as nat));
    let (ra, rb) = (pow10((MAX_SCALE - a.scale) as nat), pow10((MAX_SCALE - b.scale) as nat));
    let p = pow10(MAX_SCALE as nat);
    let (ma, mb) = (a.mantissa as int, b.mantissa as int);
    let (va, vb) = (ma * ra, mb * rb);
    assert(va * pa * pb == ma * pb * p) by (nonlinear_arith)
        requires
            va == ma * ra,
            pa * ra == p,
    ;
    assert(vb * pa * pb == mb * pa * p) by (nonlinear_arith)
        requires
            vb == mb * rb,
            pb * rb == p,
    ;
    let (x, y) = (ma * pb, mb * pa);
    assert(va <= vb <==> x * p <= y * p) by (nonlinear_arith)
        requires
            pa > 0,
            pb > 0,
            va * pa * pb == x * p,
            vb * pa * pb == y * p,
    ;
    assert(x * p <= y * p <==> x <= y) by (nonlinear_arith)
        requires
            p > 0,
    ;
    if a.scale == b.scale {
        assert(ma * pa <= mb * pa <==> ma <= mb) by (nonlinear_arith)
            requires
                pa > 0,
        ;
    }
}

proof fn lemma_padded_value(n: nat, width: nat)
    ensures
        padded_digits(n, width).len() == width,
        config::all_digits(padded_digits(n, width)),
        n < pow10(width) ==> config::digits_value(padded_digits(n, width)) == n,
    decreases width,
{
    if width > 0 {
        let w = (width - 1) as nat;
        let d = padded_digits(n, width);
        lemma_padded_value(n / 10, w);
        let head = padded_digits(n / 10, w);
        assert(d.drop_last() =~= head);
        assert forall|i: int| 0 <= i < d.len() implies '0' <= #[trigger] d[i] <= '9' by {
            if i < d.len() - 1 {
                assert(d[i] == head[i]);
            }
        }
    }
}

/// A number is printed as its sign, its whole part, and, where it has digits after the point, a
/// point and exactly these digits. Whole part and fraction make up the number.
pub proof fn law_printed_number(n: ChapterNumber)
    requires
        n.wf(),
    ensures
        exists|sign: Seq<char>, whole: Seq<char>, fraction: Seq<char>|
            {
                &&& n.text() == #[trigger] (sign + whole + fraction)
                &&& sign == if n.mantissa < 0 {
                    seq!['-']
                } else {
                    Seq::empty()
                }
                &&& config::all_digits(whole) && whole.len() > 0
                &&& n.scale == 0 ==> fraction.len() == 0 && config::digits_value(whole)
                    == magnitude(n.mantissa as int)
                &&& n.scale > 0 ==> {
                    &&& fraction.len() == n.scale + 1
                    &&& fraction[0] == '.'
                    &&& config::all_digits(fraction.skip(1))
                    &&& config::digits_value(whole) * pow10(n.scale as nat) + config::digits_value(
                        fraction.skip(1),
                    ) == magnitude(n.mantissa as int)
                }
            },
        n.mantissa >= 0 ==> magnitude(n.mantissa as int) == n.mantissa,
        n.mantissa < 0 ==> magnitude(n.mantissa as int) == -n.mantissa,
{
    let m = magnitude(n.mantissa as int);
    lemma_pow10_positive(n.scale as nat);
    let unit = pow10(n.scale as nat) as nat;
    let sign: Seq<char> = if n.mantissa < 0 {
        seq!['-']
    } else {
        Seq::empty()
    };
    let whole = text::digits(m / unit);
    let digits = padded_digits(m % unit, n.scale as nat);
    let fraction = if n.scale == 0 {
        Seq::empty()
    } else {
        seq!['.'] + digits
    };
    config::law_decimal_notation(m / unit);
    lemma_padded_value(m % unit, n.scale as nat);
    vstd::arithmetic::div_mod::lemma_fundamental_div_mod(m as int, unit as int);
    vstd::arithmetic::div_mod::lemma_mod_bound(m as int, unit as int);
    vstd::arithmetic::mul::lemma_mul_is_commutative(unit as int, (m / unit) as int);
    if n.scale == 0 {
        assert(unit == 1);
        assert(m / 1 == m);
    } else {
        assert(fraction.skip(1) =~= digits);
    }
    assert(n.text() =~= sign + whole + fraction);
}

/// The whole part of a number is what is left when its digits after the point go, whatever its sign.
pub proof fn law_whole_part(n: ChapterNumber)
    requires
        n.wf(),
    ensures
        ({
            let w = whole_part(n.mantissa as int, n.scale as int);
            let unit = pow10(n.scale as nat);
            &&& n.mantissa >= 0 ==> w >= 0 && w * unit <= n.mantissa < (w + 1) * unit
            &&& n.mantissa < 0 ==> w <= 0 && (w - 1) * unit < n.mantissa <= w * unit
        }),
{
    let unit = pow10(n.scale as nat);
    lemma_pow10_positive(n.scale as nat);
    let m = magnitude(n.mantissa as int) as int;
    let q = m / unit;
    vstd::arithmetic::div_mod::lemma_fundamental_div_mod(m, unit);
    vstd::arithmetic::div_mod::lemma_mod_bound(m, unit);
    vstd::arithmetic::div_mod::lemma_div_pos_is_pos(m, unit);
    assert(q * unit <= m < (q + 1) * unit) by (nonlinear_arith)
        requires
            m == unit * q + m % unit,
            0 <= m % unit < unit,
    ;
    if n.mantissa < 0 {
        assert((-q - 1) * unit == -((q + 1) * unit)) by (nonlinear_arith);
        assert((-q) * unit == -(q * unit)) by (nonlinear_arith);
    }
}

/// A number has up to 96 bits of digits, and up to 28 of these stand after the point. What a number
/// is read as is what the decimal parser gives.
pub proof fn law_range_of_numbers(n: ChapterNumber, s: Seq<char>)
    ensures
        n.wf() <==> -79_228_162_514_264_337_593_543_950_335 <= n.mantissa
            <= 79_228_162_514_264_337_593_543_950_335 && n.scale <= 28,
        parsed_decimal(s) is None <==> ChapterNumber::parsed(s) is None,
        parsed_decimal(s) matches Some((m, e)) ==> in_range(m, e) ==> ChapterNumber::parsed(
            s,
        )->0.mantissa == m && ChapterNumber::parsed(s)->0.scale == e,
{
}

/// A number is written with digits, points and underscores, after a sign where there is one, and with
/// one digit at least.
pub proof fn law_what_numbers_are_written_with(s: Seq<char>, i: int)
    requires
        0 <= i < s.len(),
    ensures
        is_readable(s) ==> seq![
            '0',
            '1',
            '2',
            '3',
            '4',
            '5',
            '6',
            '7',
            '8',
            '9',
            '.',
            '_',
        ].contains(s[i]) || (i == 0 && (s[i] == '+' || s[i] == '-')),
        config::all_digits(s) ==> is_readable(s),
        !is_readable(Seq::empty()),
{
    let marks = seq!['0', '1', '2', '3', '4', '5', '6', '7', '8', '9', '.', '_'];
    assert(marks[0] == '0' && marks[1] == '1' && marks[2] == '2' && marks[3] == '3' && marks[4]
        == '4' && marks[5] == '5' && marks[6] == '6' && marks[7] == '7' && marks[8] == '8'
        && marks[9] == '9' && marks[10] == '.' && marks[11] == '_');
    if config::all_digits(s) {
        assert('0' <= s[i] <= '9');
    }
}

} // verus!
