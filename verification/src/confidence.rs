//! How sure a decision is: a binary64 number, held as its bits.

use vstd::prelude::*;

verus! {

/// The weight of the sign bit.
pub const SIGN_WEIGHT: u64 = 0x8000_0000_0000_0000;

/// The bits of infinity without its sign. Everything above is not a number.
pub const INFINITE_MAGNITUDE: u64 = 0x7ff0_0000_0000_0000;

#[derive(Clone, Copy, Debug, Eq, PartialEq, Structural)]
pub struct Confidence {
    pub bits: u64,
}

impl Confidence {
    pub open spec fn magnitude(self) -> int {
        self.bits as int % SIGN_WEIGHT as int
    }

    pub open spec fn is_negative(self) -> bool {
        self.bits >= SIGN_WEIGHT
    }

    pub open spec fn is_number(self) -> bool {
        self.magnitude() <= INFINITE_MAGNITUDE
    }

    /// A number that lies before another exactly when this lies before that of the other.
    pub open spec fn rank(self) -> int {
        if self.is_negative() {
            -self.magnitude()
        } else {
            self.magnitude()
        }
    }

    pub open spec fn finite(self) -> bool {
        self.magnitude() < INFINITE_MAGNITUDE
    }

    pub open spec fn reaches(self, threshold: Confidence) -> bool {
        self.is_number() && threshold.is_number() && self.rank() >= threshold.rank()
    }

    pub fn is_finite(self) -> (finite: bool)
        ensures
            finite == self.finite(),
    {
        self.bits % SIGN_WEIGHT < INFINITE_MAGNITUDE
    }

    /// Tells whether the confidence is at least `threshold`. What is no number is never.
    pub fn at_least(self, threshold: Confidence) -> (enough: bool)
        ensures
            enough == self.reaches(threshold),
    {
        let own: u64 = self.bits % SIGN_WEIGHT;
        let other: u64 = threshold.bits % SIGN_WEIGHT;
        if own > INFINITE_MAGNITUDE || other > INFINITE_MAGNITUDE {
            return false;
        }
        let negative = self.bits >= SIGN_WEIGHT;
        let other_negative = threshold.bits >= SIGN_WEIGHT;
        if negative {
            if other_negative {
                own <= other
            } else {
                own == 0 && other == 0
            }
        } else {
            if other_negative {
                true
            } else {
                own >= other
            }
        }
    }
}

/// Reaching a threshold carries over: whoever reaches one that reaches another reaches the other.
pub proof fn law_reaching_is_transitive(a: Confidence, b: Confidence, c: Confidence)
    requires
        a.reaches(b),
        b.reaches(c),
    ensures
        a.reaches(c),
{
}

/// Of two numbers one reaches the other.
pub proof fn law_numbers_compare(a: Confidence, b: Confidence)
    requires
        a.is_number(),
        b.is_number(),
    ensures
        a.reaches(b) || b.reaches(a),
{
}

} // verus!
