//! Numbers as IEEE 754 bit patterns, with the order of doubles.
use vstd::prelude::*;

verus! {

/// The weight of the sign bit.
pub const SIGN: u64 = 0x8000_0000_0000_0000;

/// The magnitude of the infinities. What lies above it is not a number.
pub const INFINITY: u64 = 0x7ff0_0000_0000_0000;

/// A double, held as its bit pattern. Equality with `==` is that of bit patterns; the order of
/// doubles is given by [`Value::at_most`] and [`Value::equals`].
#[derive(Clone, Copy, Debug, PartialEq, Eq, Structural)]
pub struct Value {
    /// The bit pattern.
    pub bits: u64,
}

impl Value {
    /// Whether the sign bit is set.
    pub open spec fn negative(self) -> bool {
        self.bits >= SIGN
    }

    /// The bit pattern without its sign bit.
    pub open spec fn magnitude(self) -> int {
        if self.negative() {
            self.bits - SIGN
        } else {
            self.bits as int
        }
    }

    /// Whether this is not a number.
    pub open spec fn nan(self) -> bool {
        self.magnitude() > INFINITY
    }

    /// An integer that orders numbers as doubles are ordered; both zeros have rank 0.
    pub open spec fn rank(self) -> int {
        if self.negative() {
            -self.magnitude()
        } else {
            self.magnitude()
        }
    }

    /// `self <= other` on doubles: false where either is not a number.
    pub open spec fn le(self, other: Value) -> bool {
        !self.nan() && !other.nan() && self.rank() <= other.rank()
    }

    /// `self == other` on doubles: false where either is not a number, true of the two zeros.
    pub open spec fn eqv(self, other: Value) -> bool {
        !self.nan() && !other.nan() && self.rank() == other.rank()
    }

    /// The absolute value: the bit pattern with its sign bit cleared.
    pub open spec fn absolute(self) -> Value {
        Value { bits: self.magnitude() as u64 }
    }

    /// The value with the other sign.
    pub open spec fn negated(self) -> Value {
        if self.negative() {
            Value { bits: (self.bits - SIGN) as u64 }
        } else {
            Value { bits: (self.bits + SIGN) as u64 }
        }
    }

    /// The quiet value that is not a number.
    pub open spec fn not_a_number() -> Value {
        Value { bits: 0x7ff8_0000_0000_0000 }
    }

    /// The double with the given bit pattern.
    pub fn from_bits(bits: u64) -> (value: Value)
        ensures
            value.bits == bits,
    {
        Value { bits }
    }

    /// The bit pattern of the double.
    pub fn to_bits(self) -> (bits: u64)
        ensures
            bits == self.bits,
    {
        self.bits
    }

    /// The double that is not a number.
    pub fn undefined() -> (value: Value)
        ensures
            value == Value::not_a_number(),
            value.nan(),
    {
        Value { bits: 0x7ff8_0000_0000_0000 }
    }

    /// Whether this is not a number.
    pub fn is_nan(self) -> (nan: bool)
        ensures
            nan == self.nan(),
    {
        let magnitude: u64 = if self.bits >= SIGN {
            self.bits - SIGN
        } else {
            self.bits
        };
        magnitude > INFINITY
    }

    /// The absolute value.
    pub fn abs(self) -> (value: Value)
        ensures
            value == self.absolute(),
    {
        if self.bits >= SIGN {
            Value { bits: self.bits - SIGN }
        } else {
            self
        }
    }

    /// Whether `self <= other`. False where either is not a number.
    pub fn at_most(self, other: Value) -> (le: bool)
        ensures
            le == self.le(other),
    {
        if self.is_nan() || other.is_nan() {
            return false;
        }
        if self.bits >= SIGN {
            if other.bits >= SIGN {
                other.bits <= self.bits
            } else {
                true
            }
        } else if other.bits >= SIGN {
            self.bits == 0 && other.bits == SIGN
        } else {
            self.bits <= other.bits
        }
    }

    /// Whether `self == other` as doubles: false where either is not a number, true of the two
    /// zeros.
    pub fn equals(self, other: Value) -> (eqv: bool)
        ensures
            eqv == self.eqv(other),
    {
        self.at_most(other) && other.at_most(self)
    }
}

/// A double `x` together with the two sums that a small offset makes of it.
#[derive(Clone, Copy, Debug, PartialEq, Eq, Structural)]
pub struct Offset {
    /// The double itself, `x`.
    pub value: Value,
    /// `x` plus the offset.
    pub raised: Value,
    /// `x` minus the offset.
    pub lowered: Value,
}

impl Offset {
    /// The double moved away from zero: raised where it is at least zero, else lowered. One
    /// that is not a number counts as below zero.
    pub open spec fn applied(self) -> Value {
        if (Value { bits: 0 }).le(self.value) {
            self.raised
        } else {
            self.lowered
        }
    }

    /// Applies the offset, which keeps the logarithm away from zero.
    pub fn apply_offset(self) -> (moved: Value)
        ensures
            moved == self.applied(),
    {
        let zero = Value { bits: 0 };
        if zero.at_most(self.value) {
            self.raised
        } else {
            self.lowered
        }
    }
}

/// Whether the sums of two doubles with the offset are ordered as the doubles are, and the raised
/// sum of the second is at least its lowered one. Rounded sums with one offset are.
pub open spec fn sums_keep_order(a: Offset, b: Offset) -> bool {
    a.value.le(b.value) ==> {
        &&& a.raised.le(b.raised)
        &&& a.lowered.le(b.lowered)
        &&& b.lowered.le(b.raised)
    }
}

/// Applying the offset keeps the order, so an ascending list stays ascending.
pub proof fn law_applying_offsets_keeps_order(a: Offset, b: Offset)
    requires
        sums_keep_order(a, b),
        a.value.le(b.value),
    ensures
        a.applied().le(b.applied()),
{
}

/// The offset points away from zero on either side: negating a number other than zero negates
/// the result. The sums of the negated number are the negated sums of the number.
pub proof fn law_offset_points_away_from_zero(a: Offset, b: Offset)
    requires
        !a.value.nan(),
        a.value.rank() != 0,
        b.value == a.value.negated(),
        b.raised == a.lowered.negated(),
        b.lowered == a.raised.negated(),
    ensures
        b.applied() == a.applied().negated(),
{
}

/// Whether the sum that the offset picks lies on the double's own side of zero: above zero for a
/// number that is at least zero, below zero for one that is below. Rounded sums with an offset
/// above zero do.
pub open spec fn sums_leave_zero(a: Offset) -> bool {
    if (Value { bits: 0 }).le(a.value) {
        !a.raised.nan() && a.raised.rank() > 0
    } else {
        !a.lowered.nan() && a.lowered.rank() < 0
    }
}

/// Applying the offset prevents taking the logarithm of zero: no number becomes zero, and one
/// that is at least zero becomes a number above zero.
pub proof fn law_offset_prevents_zero(a: Offset)
    requires
        !a.value.nan(),
        sums_leave_zero(a),
    ensures
        !a.applied().nan(),
        a.applied().rank() != 0,
        (Value { bits: 0 }).le(a.value) ==> a.applied().rank() > 0,
{
}

/// The values with their offsets applied.
pub open spec fn applied_offsets(values: Seq<Offset>) -> Seq<Value> {
    values.map_values(|value: Offset| value.applied())
}

/// Applies the offset to each value.
pub fn apply_offsets(values: &Vec<Offset>) -> (moved: Vec<Value>)
    ensures
        moved@ == applied_offsets(values@),
{
    let mut moved: Vec<Value> = Vec::new();
    let mut i: usize = 0;
    while i < values.len()
        invariant
            0 <= i <= values.len(),
            moved.len() == i,
            forall|k: int| 0 <= k < i ==> #[trigger] moved[k] == values[k].applied(),
        decreases values.len() - i,
    {
        moved.push(values[i].apply_offset());
        i = i + 1;
    }
    assert(moved@ =~= applied_offsets(values@));
    moved
}

} // verus!
