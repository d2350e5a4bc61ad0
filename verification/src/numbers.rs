//! Real-number literals, kept as their decimal text.

use vstd::prelude::*;

verus! {

/// The value of a real literal.
///
/// A finite value is kept as its decimal text and is printed as that text;
/// the lexer keeps the characters as they were written. The three special
/// values have a variant each.
#[derive(Debug, Clone, PartialEq, Eq)]
pub enum Real {
    /// Not a number.
    Nan,
    /// Positive infinity.
    Infinity,
    /// Negative infinity.
    NegInfinity,
    /// A finite value, as its decimal text.
    Decimal(String),
}

/// The view of [`Real`]: the same value, with sequences for its strings and vectors.
pub enum RealView {
    Nan,
    Infinity,
    NegInfinity,
    Decimal(Seq<char>),
}

impl DeepView for Real {
    type V = RealView;

    open spec fn deep_view(&self) -> RealView {
        match self {
            Real::Nan => RealView::Nan,
            Real::Infinity => RealView::Infinity,
            Real::NegInfinity => RealView::NegInfinity,
            Real::Decimal(digits) => RealView::Decimal(digits@),
        }
    }
}

impl Real {
    /// Whether two values are the same.
    pub fn same(&self, other: &Real) -> (equal: bool)
        ensures
            equal == (self.deep_view() == other.deep_view()),
    {
        match (self, other) {
            (Real::Nan, Real::Nan) => true,
            (Real::Infinity, Real::Infinity) => true,
            (Real::NegInfinity, Real::NegInfinity) => true,
            (Real::Decimal(a), Real::Decimal(b)) => *a == *b,
            _ => false,
        }
    }

    /// A copy of the value.
    pub fn duplicate(&self) -> (copy: Real)
        ensures
            copy.deep_view() == self.deep_view(),
    {
        match self {
            Real::Nan => Real::Nan,
            Real::Infinity => Real::Infinity,
            Real::NegInfinity => Real::NegInfinity,
            Real::Decimal(digits) => Real::Decimal(digits.clone()),
        }
    }
}

/// The text a real value is printed as.
pub open spec fn real_text(value: RealView) -> Seq<char> {
    match value {
        RealView::Nan => "NaN"@,
        RealView::Infinity => "inf"@,
        RealView::NegInfinity => "-inf"@,
        RealView::Decimal(digits) => digits,
    }
}

} // verus!
