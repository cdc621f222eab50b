//! Decimal numbers for prices and quantities: a mantissa and a scale, with the
//! text form left to the `rust_decimal` crate.

use vstd::prelude::*;
use vstd::std_specs::cmp::PartialEqSpecImpl;

verus! {

/// The largest scale: the number of digits after the decimal point.
pub const MAX_SCALE: u32 = 28;

/// The largest mantissa in absolute value: 96 bits.
pub const MAX_MANTISSA: i128 = 0xFFFF_FFFF_FFFF_FFFF_FFFF_FFFF;

/// Whether `mantissa` and `scale` are those of a decimal number: a scale of at
/// most 28 and a mantissa of at most 96 bits.
pub open spec fn decimal_valid(mantissa: int, scale: int) -> bool {
    &&& 0 <= scale <= MAX_SCALE
    &&& -MAX_MANTISSA <= mantissa <= MAX_MANTISSA
}

/// The error type of the `rust_decimal` crate, carried through as an opaque value.
#[verifier::external_type_specification]
#[verifier::external_body]
pub struct ExDecimalError(rust_decimal::Error);

/// The text that `rust_decimal` writes for the number `mantissa / 10^scale`.
pub uninterp spec fn decimal_text(mantissa: int, scale: int) -> Seq<char>;

/// What `rust_decimal` reads from `text`: the mantissa and the scale of the
/// number, or nothing where it refuses the text.
pub uninterp spec fn decimal_parse(text: Seq<char>) -> Option<(int, int)>;

/// `Decimal::from_i128_with_scale` followed by `to_string`: the text of the
/// number with this mantissa and scale. The constructor panics on a scale
/// above 28 or a mantissa beyond 96 bits, which are left out.
#[verifier::external_body]
fn format_parts(mantissa: i128, scale: u32) -> (text: String)
    requires
        decimal_valid(mantissa as int, scale as int),
    ensures
        text@ == decimal_text(mantissa as int, scale as int),
{
    rust_decimal::Decimal::from_i128_with_scale(mantissa, scale).to_string()
}

/// `str::parse::<Decimal>`, with the number handed out as its `mantissa()` and
/// its `scale()`.
#[verifier::external_body]
fn parse_parts(text: &str) -> (r: Result<(i128, u32), rust_decimal::Error>)
    ensures
        match r {
            Ok((mantissa, scale)) => decimal_parse(text@) == Some((mantissa as int, scale as int)),
            Err(_) => decimal_parse(text@) is None,
        },
{
    match text.parse::<rust_decimal::Decimal>() {
        Ok(d) => Ok((d.mantissa(), d.scale())),
        Err(e) => Err(e),
    }
}

/// A decimal number `mantissa / 10^scale`.
#[derive(Debug, Clone, Copy, Eq)]
pub struct Decimal {
    mantissa: i128,
    scale: u32,
}

/// A `Decimal` as mathematical integers.
pub struct DecimalView {
    pub mantissa: int,
    pub scale: int,
}

impl View for Decimal {
    type V = DecimalView;

    closed spec fn view(&self) -> DecimalView {
        DecimalView { mantissa: self.mantissa as int, scale: self.scale as int }
    }
}

impl DecimalView {
    /// Whether the mantissa and the scale are within a decimal's bounds.
    pub open spec fn valid(self) -> bool {
        decimal_valid(self.mantissa, self.scale)
    }

    /// The text form of the number.
    pub open spec fn text(self) -> Seq<char> {
        decimal_text(self.mantissa, self.scale)
    }

    /// Whether the text form of the number reads back as the number.
    pub open spec fn reads_back(self) -> bool {
        parsed_decimal(self.text()) == Some(self)
    }
}

/// Ten to the power of `e`.
pub open spec fn pow10(e: nat) -> nat
    decreases e,
{
    if e == 0 {
        1
    } else {
        10 * pow10((e - 1) as nat)
    }
}

/// Whether two decimals are the same number: written with the same number
/// of decimal places, they have the same mantissa.
pub open spec fn same_number(a: DecimalView, b: DecimalView) -> bool {
    if a.scale <= b.scale {
        a.mantissa * pow10((b.scale - a.scale) as nat) == b.mantissa
    } else {
        b.mantissa * pow10((a.scale - b.scale) as nat) == a.mantissa
    }
}

/// A power of ten is at least 1, and at least 10 from the first power on.
proof fn lemma_pow10_grows(e: nat)
    ensures
        pow10(e) >= 1,
        e >= 1 ==> pow10(e) >= 10,
    decreases e,
{
    if e > 0 {
        lemma_pow10_grows((e - 1) as nat);
    }
}

/// Tells whether `low`, with `shift` more decimal places, is `high`.
fn scaled_equals(low: i128, shift: u32, high: i128) -> (r: bool)
    requires
        -MAX_MANTISSA <= low <= MAX_MANTISSA,
        -MAX_MANTISSA <= high <= MAX_MANTISSA,
    ensures
        r == (low * pow10(shift as nat) == high),
{
    let mut cur: i128 = low;
    let mut k: u32 = 0;
    proof {
        assert(low * pow10(0) == low) by (nonlinear_arith)
            requires
                pow10(0) == 1,
        ;
    }
    while k < shift
        invariant
            k <= shift,
            cur == low * pow10(k as nat),
            -MAX_MANTISSA <= cur <= MAX_MANTISSA,
            -MAX_MANTISSA <= high <= MAX_MANTISSA,
        decreases shift - k,
    {
        let ghost left = (shift - k) as nat;
        proof {
            lemma_pow10_grows(left);
            lemma_pow10_split(k as nat, left);
            assert(low * pow10(shift as nat) == cur * pow10(left)) by (nonlinear_arith)
                requires
                    cur == low * pow10(k as nat),
                    pow10(shift as nat) == pow10(k as nat) * pow10(left),
            ;
        }
        if cur == 0 {
            proof {
                assert(cur * pow10(left) == 0) by (nonlinear_arith)
                    requires
                        cur == 0,
                ;
            }
            return high == 0;
        }
        if cur > MAX_MANTISSA / 10 || cur < -(MAX_MANTISSA / 10) {
            proof {
                let p = pow10(left) as int;
                if cur > 0 {
                    assert(cur * p >= cur * 10) by (nonlinear_arith)
                        requires
                            cur > 0,
                            p >= 10,
                    ;
                } else {
                    assert(cur * p <= cur * 10) by (nonlinear_arith)
                        requires
                            cur < 0,
                            p >= 10,
                    ;
                }
            }
            return false;
        }
        proof {
            assert(cur * 10 == low * pow10((k + 1) as nat)) by (nonlinear_arith)
                requires
                    cur == low * pow10(k as nat),
                    pow10((k + 1) as nat) == 10 * pow10(k as nat),
            ;
        }
        cur = cur * 10;
        k = k + 1;
    }
    cur == high
}

/// A power of ten splits into the powers of two parts of its exponent.
proof fn lemma_pow10_split(a: nat, b: nat)
    ensures
        pow10(a + b) == pow10(a) * pow10(b),
    decreases b,
{
    if b == 0 {
        assert(pow10(a) * 1 == pow10(a)) by (nonlinear_arith);
    } else {
        lemma_pow10_split(a, (b - 1) as nat);
        assert(pow10(a + b) == 10 * pow10((a + b - 1) as nat));
        assert(10 * (pow10(a) * pow10((b - 1) as nat)) == pow10(a) * (10 * pow10((b - 1) as nat)))
            by (nonlinear_arith);
    }
}

/// The decimal that `rust_decimal` reads from `text`, where it reads one
/// within a decimal's bounds.
pub open spec fn parsed_decimal(text: Seq<char>) -> Option<DecimalView> {
    match decimal_parse(text) {
        Some((mantissa, scale)) => if decimal_valid(mantissa, scale) {
            Some(DecimalView { mantissa, scale })
        } else {
            None
        },
        None => None,
    }
}

impl PartialEq for Decimal {
    /// Two decimals are equal where they are the same number, whatever
    /// their scales: 1.0 is 1.00.
    fn eq(&self, other: &Decimal) -> (r: bool) {
        proof {
            use_type_invariant(self);
            use_type_invariant(other);
        }
        if self.scale <= other.scale {
            scaled_equals(self.mantissa, other.scale - self.scale, other.mantissa)
        } else {
            scaled_equals(other.mantissa, self.scale - other.scale, self.mantissa)
        }
    }
}

impl PartialEqSpecImpl for Decimal {
    open spec fn obeys_eq_spec() -> bool {
        true
    }

    open spec fn eq_spec(&self, other: &Decimal) -> bool {
        same_number(self@, other@)
    }
}

impl Decimal {
    #[verifier::type_invariant]
    spec fn well_formed(self) -> bool {
        decimal_valid(self.mantissa as int, self.scale as int)
    }

    /// The number `num / 10^scale`. A scale above 28 is not a decimal's.
    pub fn new(num: i64, scale: u32) -> (d: Decimal)
        requires
            scale <= MAX_SCALE,
        ensures
            d@ == (DecimalView { mantissa: num as int, scale: scale as int }),
    {
        Decimal { mantissa: num as i128, scale }
    }

    /// The number `num / 10^scale`, where that is a decimal.
    pub fn try_from_i128_with_scale(num: i128, scale: u32) -> (r: Option<Decimal>)
        ensures
            match r {
                Some(d) => decimal_valid(num as int, scale as int) && d@ == (DecimalView {
                    mantissa: num as int,
                    scale: scale as int,
                }),
                None => !decimal_valid(num as int, scale as int),
            },
    {
        if scale > MAX_SCALE || num > MAX_MANTISSA || num < -MAX_MANTISSA {
            None
        } else {
            Some(Decimal { mantissa: num, scale })
        }
    }

    /// The mantissa: the number without its decimal point.
    pub fn mantissa(&self) -> (m: i128)
        ensures
            m == self@.mantissa,
            self@.valid(),
    {
        proof {
            use_type_invariant(self);
        }
        self.mantissa
    }

    /// The scale: the number of digits after the decimal point.
    pub fn scale(&self) -> (s: u32)
        ensures
            s == self@.scale,
            self@.valid(),
    {
        proof {
            use_type_invariant(self);
        }
        self.scale
    }

    /// The text form of the number.
    pub fn to_text(&self) -> (text: String)
        ensures
            text@ == self@.text(),
            self@.valid(),
    {
        proof {
            use_type_invariant(self);
        }
        format_parts(self.mantissa, self.scale)
    }

    /// Reads a number from its text form.
    pub fn parse(text: &str) -> (r: Option<Decimal>)
        ensures
            match r {
                Some(d) => parsed_decimal(text@) == Some(d@),
                None => parsed_decimal(text@) is None,
            },
    {
        match parse_parts(text) {
            Ok((mantissa, scale)) => Decimal::try_from_i128_with_scale(mantissa, scale),
            Err(_) => None,
        }
    }
}

} // verus!
