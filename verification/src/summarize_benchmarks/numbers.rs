//! Measured numbers, held as the bits of an IEEE 754 double.
//!
//! Numbers are compared, and their signs turned, by their bits. What takes arithmetic,
//! and what turns numbers into text and back, is left to functions that the caller
//! hands in: each gives for the same arguments the same result.

use vstd::prelude::*;

use crate::copies::Copied;

verus! {

/// The bit that tells numbers below zero.
pub const SIGN: u64 = 0x8000_0000_0000_0000;

/// The bits of infinity; above them are those of what is no number.
pub const INFINITY: u64 = 0x7ff0_0000_0000_0000;

/// A number by the bits of its IEEE 754 double.
#[derive(Debug, Clone, Copy, PartialEq, Eq, Structural)]
pub struct Number {
    pub bits: u64,
}

impl View for Number {
    type V = Number;

    open spec fn view(&self) -> Number {
        *self
    }
}

impl Copied for Number {
    fn copied(&self) -> (r: Self) {
        *self
    }
}

/// The bits of zero.
pub const ZERO: u64 = 0;

/// The bits of one hundred.
pub const HUNDRED: u64 = 0x4059_0000_0000_0000;

impl Number {
    /// The bits without the sign.
    pub open spec fn magnitude(self) -> int {
        if self.bits >= SIGN {
            self.bits - SIGN
        } else {
            self.bits as int
        }
    }

    /// Whether this is a number, and no infinite one.
    pub open spec fn finite(self) -> bool {
        self.magnitude() < INFINITY
    }

    /// Whether this stands for no number at all.
    pub open spec fn nan(self) -> bool {
        self.magnitude() > INFINITY
    }

    /// Numbers come in the order of their ranks; both zeros have the same.
    pub open spec fn rank(self) -> int {
        if self.bits >= SIGN {
            -self.magnitude()
        } else {
            self.magnitude()
        }
    }

    /// Whether this number is less than another.
    pub open spec fn below(self, other: Number) -> bool {
        !self.nan() && !other.nan() && self.rank() < other.rank()
    }

    /// Whether this number is less than another or equal to it.
    pub open spec fn at_most(self, other: Number) -> bool {
        !self.nan() && !other.nan() && self.rank() <= other.rank()
    }

    /// Whether this number is above zero.
    pub open spec fn positive(self) -> bool {
        (Number { bits: ZERO }).below(self)
    }

    /// Whether this number is below zero.
    pub open spec fn negative(self) -> bool {
        self.below(Number { bits: ZERO })
    }

    /// Whether this number is zero, of whichever sign.
    pub open spec fn zero(self) -> bool {
        self.magnitude() == 0
    }

    /// The number with the other sign.
    pub open spec fn negated(self) -> Number {
        if self.bits >= SIGN {
            Number { bits: (self.bits - SIGN) as u64 }
        } else {
            Number { bits: (self.bits + SIGN) as u64 }
        }
    }

    fn magnitude_bits(&self) -> (r: u64)
        ensures
            r == self.magnitude(),
    {
        if self.bits >= SIGN {
            self.bits - SIGN
        } else {
            self.bits
        }
    }

    pub fn is_finite(&self) -> (r: bool)
        ensures
            r == self.finite(),
    {
        self.magnitude_bits() < INFINITY
    }

    /// Whether this number's rank is lower than that of another.
    pub fn ranks_below(&self, other: &Number) -> (r: bool)
        ensures
            r == (self.rank() < other.rank()),
    {
        let own: u64 = self.magnitude_bits();
        let its: u64 = other.magnitude_bits();
        if self.bits >= SIGN {
            if other.bits >= SIGN {
                own > its
            } else {
                own > 0 || its > 0
            }
        } else {
            other.bits < SIGN && own < its
        }
    }

    pub fn is_below(&self, other: &Number) -> (r: bool)
        ensures
            r == self.below(*other),
    {
        self.magnitude_bits() <= INFINITY && other.magnitude_bits() <= INFINITY
            && self.ranks_below(other)
    }

    pub fn is_at_most(&self, other: &Number) -> (r: bool)
        ensures
            r == self.at_most(*other),
    {
        self.magnitude_bits() <= INFINITY && other.magnitude_bits() <= INFINITY
            && !other.ranks_below(self)
    }

    pub fn is_positive(&self) -> (r: bool)
        ensures
            r == self.positive(),
    {
        let zero = Number { bits: ZERO };
        zero.is_below(self)
    }

    pub fn is_zero(&self) -> (r: bool)
        ensures
            r == self.zero(),
    {
        self.magnitude_bits() == 0
    }

    pub fn is_negative(&self) -> (r: bool)
        ensures
            r == self.negative(),
    {
        self.is_below(&Number { bits: ZERO })
    }

    pub fn negate(&self) -> (r: Number)
        ensures
            r == self.negated(),
    {
        if self.bits >= SIGN {
            Number { bits: self.bits - SIGN }
        } else {
            Number { bits: self.bits + SIGN }
        }
    }
}

/// Turning the sign of a number twice gives the number back.
pub proof fn negated_twice(a: Number)
    ensures
        a.negated().negated() == a,
{
}

/// Turning the signs of two numbers turns their order.
pub proof fn negated_turns_order(a: Number, b: Number)
    ensures
        a.below(b) == b.negated().below(a.negated()),
{
}

/// A number that is less than another is not less than it the other way round, and no
/// number is less than itself.
pub proof fn below_is_strict(a: Number, b: Number, c: Number)
    ensures
        !a.below(a),
        a.below(b) ==> !b.below(a),
        a.below(b) && b.below(c) ==> a.below(c),
{
}

/// What is computed of two numbers.
#[derive(Debug, Clone, Copy, PartialEq, Eq, Structural)]
pub enum Operation {
    /// The first less the second.
    Difference,
    /// The first divided by the second.
    Ratio,
    /// The product.
    Product,
    /// The number halfway between them.
    Midpoint,
}

/// How a number is written.
#[derive(Debug, Clone, Copy, PartialEq, Eq, Structural)]
pub enum Style {
    /// With as many digits as tell it from every other.
    Shortest,
    /// With a number of digits behind the point.
    Fixed(usize),
}

/// What an arithmetic computes.
pub type Arithmetic = spec_fn(Number, Operation, Number) -> Number;

/// How a notation writes numbers.
pub type Notation = spec_fn(Number, Style) -> Seq<char>;

/// What a reader makes of texts.
pub type Reading = spec_fn(Seq<char>) -> Option<Number>;

/// Whether a function computes something, and always the same, for all arguments.
pub open spec fn computes<C: Fn(Number, Operation, Number) -> Number>(compute: C) -> bool {
    &&& forall|a: Number, operation: Operation, b: Number|
        #[trigger] call_requires(compute, (a, operation, b))
    &&& forall|a: Number, operation: Operation, b: Number, r: Number, s: Number|
        #[trigger] call_ensures(compute, (a, operation, b), r) && #[trigger] call_ensures(
            compute,
            (a, operation, b),
            s,
        ) ==> r == s
}

/// What a function computes.
pub open spec fn arithmetic<C: Fn(Number, Operation, Number) -> Number>(compute: C) -> Arithmetic {
    |a: Number, operation: Operation, b: Number|
        choose|r: Number| call_ensures(compute, (a, operation, b), r)
}

pub fn computed<C: Fn(Number, Operation, Number) -> Number>(
    compute: &C,
    a: Number,
    operation: Operation,
    b: Number,
) -> (r: Number)
    requires
        computes(*compute),
    ensures
        r == arithmetic(*compute)(a, operation, b),
{
    let r = compute(a, operation, b);
    assert(call_ensures(*compute, (a, operation, b), r));
    r
}

/// By how many per cent `a` is above `b`.
pub open spec fn percent_above(arithmetic: Arithmetic, a: Number, b: Number) -> Number {
    arithmetic(
        arithmetic(arithmetic(a, Operation::Difference, b), Operation::Ratio, b),
        Operation::Product,
        Number { bits: HUNDRED },
    )
}

/// By how many per cent `a` is above `b`.
pub fn change_percent<C: Fn(Number, Operation, Number) -> Number>(
    compute: &C,
    a: Number,
    b: Number,
) -> (r: Number)
    requires
        computes(*compute),
    ensures
        r == percent_above(arithmetic(*compute), a, b),
{
    let difference = computed(compute, a, Operation::Difference, b);
    let share = computed(compute, difference, Operation::Ratio, b);
    computed(compute, share, Operation::Product, Number { bits: HUNDRED })
}

/// Whether a function writes something, and always the same, for all numbers.
pub open spec fn writes<S: Fn(Number, Style) -> String>(show: S) -> bool {
    &&& forall|a: Number, style: Style| #[trigger] call_requires(show, (a, style))
    &&& forall|a: Number, style: Style, r: String, s: String|
        #[trigger] call_ensures(show, (a, style), r) && #[trigger] call_ensures(
            show,
            (a, style),
            s,
        ) ==> r@ == s@
}

/// How a function writes numbers.
pub open spec fn notation<S: Fn(Number, Style) -> String>(show: S) -> Notation {
    |a: Number, style: Style| (choose|r: String| call_ensures(show, (a, style), r))@
}

pub fn shown<S: Fn(Number, Style) -> String>(show: &S, a: Number, style: Style) -> (r: String)
    requires
        writes(*show),
    ensures
        r@ == notation(*show)(a, style),
{
    let r = show(a, style);
    assert(call_ensures(*show, (a, style), r));
    r
}

/// Whether a function reads all texts, and texts with the same characters alike.
pub open spec fn reads<R: Fn(String) -> Option<Number>>(read: R) -> bool {
    &&& forall|text: String| #[trigger] call_requires(read, (text,))
    &&& forall|text: String, other: String, r: Option<Number>, s: Option<Number>|
        #[trigger] call_ensures(read, (text,), r) && #[trigger] call_ensures(read, (other,), s)
            && text@ == other@ ==> r == s
}

/// Whether a function can make `r` of a text with these characters.
pub open spec fn can_read<R: Fn(String) -> Option<Number>>(
    read: R,
    text: Seq<char>,
    r: Option<Number>,
) -> bool {
    exists|given: String| given@ == text && #[trigger] call_ensures(read, (given,), r)
}

/// What a function makes of texts.
pub open spec fn reading<R: Fn(String) -> Option<Number>>(read: R) -> Reading {
    |text: Seq<char>| choose|r: Option<Number>| can_read(read, text, r)
}

pub fn read_number<R: Fn(String) -> Option<Number>>(read: &R, text: String) -> (r: Option<Number>)
    requires
        reads(*read),
    ensures
        r == reading(*read)(text@),
{
    let ghost given = text;
    let r = read(text);
    assert(call_ensures(*read, (given,), r));
    assert(can_read(*read, given@, r));
    r
}

} // verus!
