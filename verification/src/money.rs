//! Fixed-point decimal amounts, computed by `rust_decimal`.
use crate::text::decimal_digits;
use rust_decimal::Decimal;
use vstd::prelude::*;

verus! {

/// A decimal amount laid out as `rust_decimal` lays out a `Decimal`: a 96-bit
/// magnitude in three 32-bit words, a sign, and a power-of-ten scale.
/// The amount it stands for is `(-1)^negative * magnitude / 10^scale`.
/// Its scale is at most 28, as for every `Decimal`.
#[derive(Clone, Copy, Debug, PartialEq, Eq)]
pub struct Amount {
    negative: bool,
    hi: u32,
    mid: u32,
    lo: u32,
    scale: u32,
}

/// `10^n`.
pub open spec fn pow10(n: nat) -> nat
    decreases n,
{
    if n == 0 {
        1
    } else {
        10 * pow10((n - 1) as nat)
    }
}

/// What `Decimal::from_str` gives back for a string (`None` where it reports an error).
pub uninterp spec fn decimal_parse(s: Seq<char>) -> Option<Amount>;

/// The text that `Decimal`'s `Display` writes for an amount: a `-` for a
/// negative amount other than zero, then the magnitude's decimal digits, padded
/// on the left with zeros to at least `scale` digits, with a point before the
/// last `scale` of them (none at scale 0) and a `0` before a point that would
/// come first; `0` for zero at scale 0.
pub open spec fn decimal_text(a: Amount) -> Seq<char> {
    let digits = if a.magnitude() == 0 {
        Seq::<char>::empty()
    } else {
        decimal_digits(a.magnitude())
    };
    let scale = a.scale_of();
    let padded = if digits.len() < scale {
        Seq::new((scale - digits.len()) as nat, |i: int| '0') + digits
    } else {
        digits
    };
    let whole = padded.take(padded.len() - scale);
    let frac = padded.skip(padded.len() - scale);
    let sign = if a.is_negative() && a.magnitude() > 0 {
        seq!['-']
    } else {
        Seq::<char>::empty()
    };
    let body = if scale == 0 {
        if padded.len() == 0 {
            seq!['0']
        } else {
            padded
        }
    } else {
        (if whole.len() == 0 {
            seq!['0']
        } else {
            whole
        }) + seq!['.'] + frac
    };
    sign + body
}

/// What `Decimal::checked_add` gives back.
pub uninterp spec fn decimal_sum(a: Amount, b: Amount) -> Option<Amount>;

/// What `Decimal::checked_sub` gives back.
pub uninterp spec fn decimal_difference(a: Amount, b: Amount) -> Option<Amount>;

/// What `Decimal::checked_mul` gives back.
pub uninterp spec fn decimal_product(a: Amount, b: Amount) -> Option<Amount>;

/// What `Decimal::checked_div` gives back.
pub uninterp spec fn decimal_quotient(a: Amount, b: Amount) -> Option<Amount>;

impl Amount {
    /// A `Decimal` can be built from these parts: its scale is at most 28.
    #[verifier::type_invariant]
    pub closed spec fn wf(self) -> bool {
        self.scale <= 28
    }

    /// Whether the amount is below zero (a zero amount may carry the sign too).
    pub closed spec fn is_negative(self) -> bool {
        self.negative
    }

    /// The power of ten that the magnitude is divided by.
    pub closed spec fn scale_of(self) -> nat {
        self.scale as nat
    }

    /// The unsigned 96-bit magnitude.
    pub closed spec fn magnitude(self) -> nat {
        self.hi as nat * 0x1_0000_0000_0000_0000 + self.mid as nat * 0x1_0000_0000 + self.lo as nat
    }

    /// The signed magnitude (the amount times `10^scale`).
    pub closed spec fn signed(self) -> int {
        if self.negative {
            -(self.magnitude() as int)
        } else {
            self.magnitude() as int
        }
    }

    /// `self < other` as numbers, compared at a common scale.
    pub closed spec fn less_than(self, other: Amount) -> bool {
        self.signed() * pow10(other.scale as nat) < other.signed() * pow10(self.scale as nat)
    }

    /// `self == other` as numbers, compared at a common scale.
    pub closed spec fn same_value(self, other: Amount) -> bool {
        self.signed() * pow10(other.scale as nat) == other.signed() * pow10(self.scale as nat)
    }

    /// The amount zero, with scale 0 (`Decimal::ZERO`).
    pub closed spec fn zero_spec() -> Amount {
        Amount { negative: false, hi: 0, mid: 0, lo: 0, scale: 0 }
    }

    /// An amount is zero exactly when its magnitude is.
    pub proof fn lemma_zero(a: Amount)
        ensures
            a.same_value(Amount::zero_spec()) <==> a.magnitude() == 0,
            Amount::zero_spec().magnitude() == 0,
            Amount::zero_spec().wf(),
    {
        let z = Amount::zero_spec();
        assert(pow10(0) == 1);
        assert(z.signed() == 0);
        assert(z.signed() * pow10(a.scale as nat) == 0);
        assert(z.scale as nat == 0);
        let s = a.signed();
        let p = pow10(z.scale as nat);
        assert(p == 1);
        assert(s * p == s) by (nonlinear_arith)
            requires
                p == 1,
        ;
    }

    /// The amount zero, with scale 0.
    pub fn zero() -> (r: Amount)
        ensures
            r == Amount::zero_spec(),
    {
        Amount { negative: false, hi: 0, mid: 0, lo: 0, scale: 0 }
    }

    /// Reads a decimal number written in base 10, as `Decimal::from_str` does.
    pub fn parse(s: &str) -> (r: Option<Amount>)
        ensures
            r == decimal_parse(s@),
    {
        parse_decimal(s)
    }

    /// The amount written out as `Decimal`'s `Display` writes it.
    pub fn text(&self) -> (r: String)
        ensures
            r@ == decimal_text(*self),
    {
        proof {
            use_type_invariant(self);
        }
        decimal_to_string(self)
    }

    /// Numeric equality (`1.0` equals `1.00`), as `Decimal`'s `==` decides it.
    pub fn equals(&self, other: &Amount) -> (r: bool)
        ensures
            r == self.same_value(*other),
    {
        proof {
            use_type_invariant(self);
            use_type_invariant(other);
        }
        decimal_eq(self, other)
    }
}

/// Calls `Decimal::from_str` (`str::parse::<Decimal>`). Claims only that the
/// result is the named `decimal_parse` of the text and that a parsed value has
/// a scale of at most 28, as every `Decimal` has.
#[verifier::external_body]
fn parse_decimal(s: &str) -> (r: Option<Amount>)
    ensures
        r == decimal_parse(s@),
        r matches Some(a) ==> a.wf(),
{
    match s.parse::<Decimal>() {
        Ok(d) => {
            let u = d.unpack();
            Some(Amount { negative: u.negative, hi: u.hi, mid: u.mid, lo: u.lo, scale: u.scale })
        },
        Err(_) => None,
    }
}

/// Calls `Decimal::to_string` (its `Display`) on `Decimal::from_parts` of the
/// amount. Claims that the text is `decimal_text` of the amount: `Decimal::from_parts`
/// clears the sign of a zero, and `Display` writes the digits as that function says.
#[verifier::external_body]
fn decimal_to_string(a: &Amount) -> (r: String)
    requires
        a.wf(),
    ensures
        r@ == decimal_text(*a),
{
    Decimal::from_parts(a.lo, a.mid, a.hi, a.negative, a.scale).to_string()
}

/// Calls `Decimal`'s `==` (`PartialEq::eq`), which compares by numeric value.
#[verifier::external_body]
pub(crate) fn decimal_eq(a: &Amount, b: &Amount) -> (r: bool)
    requires
        a.wf(),
        b.wf(),
    ensures
        r == a.same_value(*b),
{
    Decimal::from_parts(a.lo, a.mid, a.hi, a.negative, a.scale) == Decimal::from_parts(
        b.lo,
        b.mid,
        b.hi,
        b.negative,
        b.scale,
    )
}

/// Calls `Decimal`'s `<` (`PartialOrd::lt`), which orders by numeric value.
#[verifier::external_body]
pub(crate) fn decimal_lt(a: &Amount, b: &Amount) -> (r: bool)
    requires
        a.wf(),
        b.wf(),
    ensures
        r == a.less_than(*b),
{
    Decimal::from_parts(a.lo, a.mid, a.hi, a.negative, a.scale) < Decimal::from_parts(
        b.lo,
        b.mid,
        b.hi,
        b.negative,
        b.scale,
    )
}

/// Calls `Decimal`'s `>` (`PartialOrd::gt`), which orders by numeric value.
#[verifier::external_body]
pub(crate) fn decimal_gt(a: &Amount, b: &Amount) -> (r: bool)
    requires
        a.wf(),
        b.wf(),
    ensures
        r == b.less_than(*a),
{
    Decimal::from_parts(a.lo, a.mid, a.hi, a.negative, a.scale) > Decimal::from_parts(
        b.lo,
        b.mid,
        b.hi,
        b.negative,
        b.scale,
    )
}

/// Calls `Decimal::checked_add`; `None` where the sum overflows.
/// Claims that the result is the named `decimal_sum` and has a scale of at most 28.
#[verifier::external_body]
pub(crate) fn decimal_checked_add(a: &Amount, b: &Amount) -> (r: Option<Amount>)
    requires
        a.wf(),
        b.wf(),
    ensures
        r == decimal_sum(*a, *b),
        r matches Some(c) ==> c.wf(),
{
    let x = Decimal::from_parts(a.lo, a.mid, a.hi, a.negative, a.scale);
    let y = Decimal::from_parts(b.lo, b.mid, b.hi, b.negative, b.scale);
    match x.checked_add(y) {
        Some(z) => {
            let u = z.unpack();
            Some(Amount { negative: u.negative, hi: u.hi, mid: u.mid, lo: u.lo, scale: u.scale })
        },
        None => None,
    }
}

/// Calls `Decimal::checked_sub`; `None` where the difference overflows.
/// Claims that the result is the named `decimal_difference` and has a scale of at most 28.
#[verifier::external_body]
pub(crate) fn decimal_checked_sub(a: &Amount, b: &Amount) -> (r: Option<Amount>)
    requires
        a.wf(),
        b.wf(),
    ensures
        r == decimal_difference(*a, *b),
        r matches Some(c) ==> c.wf(),
{
    let x = Decimal::from_parts(a.lo, a.mid, a.hi, a.negative, a.scale);
    let y = Decimal::from_parts(b.lo, b.mid, b.hi, b.negative, b.scale);
    match x.checked_sub(y) {
        Some(z) => {
            let u = z.unpack();
            Some(Amount { negative: u.negative, hi: u.hi, mid: u.mid, lo: u.lo, scale: u.scale })
        },
        None => None,
    }
}

/// Calls `Decimal::checked_mul`; `None` where the product overflows.
/// Claims that the result is the named `decimal_product` and has a scale of at most 28.
#[verifier::external_body]
pub(crate) fn decimal_checked_mul(a: &Amount, b: &Amount) -> (r: Option<Amount>)
    requires
        a.wf(),
        b.wf(),
    ensures
        r == decimal_product(*a, *b),
        r matches Some(c) ==> c.wf(),
{
    let x = Decimal::from_parts(a.lo, a.mid, a.hi, a.negative, a.scale);
    let y = Decimal::from_parts(b.lo, b.mid, b.hi, b.negative, b.scale);
    match x.checked_mul(y) {
        Some(z) => {
            let u = z.unpack();
            Some(Amount { negative: u.negative, hi: u.hi, mid: u.mid, lo: u.lo, scale: u.scale })
        },
        None => None,
    }
}

/// Calls `Decimal::checked_div`; `None` where the divisor is zero or the
/// quotient overflows. Claims that the result is the named `decimal_quotient`
/// and has a scale of at most 28.
#[verifier::external_body]
pub(crate) fn decimal_checked_div(a: &Amount, b: &Amount) -> (r: Option<Amount>)
    requires
        a.wf(),
        b.wf(),
    ensures
        r == decimal_quotient(*a, *b),
        r matches Some(c) ==> c.wf(),
{
    let x = Decimal::from_parts(a.lo, a.mid, a.hi, a.negative, a.scale);
    let y = Decimal::from_parts(b.lo, b.mid, b.hi, b.negative, b.scale);
    match x.checked_div(y) {
        Some(z) => {
            let u = z.unpack();
            Some(Amount { negative: u.negative, hi: u.hi, mid: u.mid, lo: u.lo, scale: u.scale })
        },
        None => None,
    }
}

} // verus!
