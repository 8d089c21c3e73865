//! Single-precision numbers as ordered integers.
//!
//! An IEEE-754 single-precision bit pattern is a sign bit followed by 31 bits
//! of magnitude, and among the patterns that are numbers (not NaN) the signed
//! magnitude orders exactly as the numbers do, with both zeros at 0. A
//! [`Scalar`] holds that signed magnitude.
use vstd::prelude::*;

verus! {

/// The bit that carries the sign.
pub const SIGN_BIT: u32 = 0x8000_0000;

/// The magnitude of positive infinity; every larger magnitude is a NaN.
pub const INFINITY_MAGNITUDE: u32 = 0x7f80_0000;

/// The bit pattern of 1.
pub const ONE_BITS: u32 = 0x3f80_0000;

/// The 31 low bits of a pattern, as a number.
pub open spec fn magnitude_of(bits: u32) -> int {
    if bits >= SIGN_BIT {
        bits - SIGN_BIT
    } else {
        bits as int
    }
}

/// Whether a pattern stands for no number.
pub open spec fn is_nan(bits: u32) -> bool {
    magnitude_of(bits) > INFINITY_MAGNITUDE
}

/// The signed magnitude of a pattern: negative patterns count downwards from 0.
pub open spec fn key_of(bits: u32) -> int {
    if bits >= SIGN_BIT {
        -magnitude_of(bits)
    } else {
        magnitude_of(bits)
    }
}

/// Whether an integer is the signed magnitude of some number.
pub open spec fn is_key(k: int) -> bool {
    -(INFINITY_MAGNITUDE as int) <= k <= INFINITY_MAGNITUDE as int
}

/// A number, possibly infinite, never NaN.
#[derive(Clone, Copy, Debug, PartialEq, Eq, Structural)]
pub struct Scalar {
    key: i32,
}

impl View for Scalar {
    type V = int;

    closed spec fn view(&self) -> int {
        self.key as int
    }
}

impl Scalar {
    #[verifier::type_invariant]
    spec fn in_range(self) -> bool {
        is_key(self.key as int)
    }

    /// Whether this is a scalar that the constructors can make. It holds of
    /// every scalar that a program has in hand.
    pub open spec fn wf(self) -> bool {
        is_key(self@)
    }

    /// The scalar with a given signed magnitude (any one, for an integer that
    /// is none).
    pub closed spec fn with_key(k: int) -> Scalar {
        Scalar { key: k as i32 }
    }

    /// The smaller of two scalars; the first where they are equal.
    pub open spec fn spec_min(self, other: Scalar) -> Scalar {
        if self@ <= other@ {
            self
        } else {
            other
        }
    }

    /// The larger of two scalars; the first where they are equal.
    pub open spec fn spec_max(self, other: Scalar) -> Scalar {
        if self@ >= other@ {
            self
        } else {
            other
        }
    }

    /// Two scalars with the same signed magnitude are the same scalar.
    pub broadcast proof fn lemma_view_injective(a: Scalar, b: Scalar)
        ensures
            #![trigger a@, b@]
            a@ == b@ <==> a == b,
    {
    }

    /// `with_key` undoes the view.
    pub proof fn lemma_with_key(s: Scalar)
        ensures
            Scalar::with_key(s@) == s,
    {
    }

    /// The view of `with_key(k)` is `k` for every signed magnitude `k`.
    pub proof fn lemma_key_of_with_key(k: int)
        requires
            is_key(k),
        ensures
            Scalar::with_key(k)@ == k,
    {
    }

    /// What `from_bits` returns: nothing for a NaN pattern, else the scalar
    /// with the pattern's signed magnitude.
    pub open spec fn spec_from_bits(bits: u32) -> Option<Scalar> {
        if is_nan(bits) {
            None
        } else {
            Some(Scalar::with_key(key_of(bits)))
        }
    }

    /// What `to_bits` returns: the magnitude, with the sign bit set for a
    /// scalar below zero.
    pub open spec fn spec_to_bits(self) -> u32 {
        if self@ >= 0 {
            self@ as u32
        } else {
            (SIGN_BIT - self@) as u32
        }
    }

    /// Reads a bit pattern. `None` exactly for the NaN patterns.
    pub fn from_bits(bits: u32) -> (r: Option<Scalar>)
        ensures
            r == Scalar::spec_from_bits(bits),
            r matches Some(s) ==> s@ == key_of(bits),
    {
        if bits >= SIGN_BIT {
            let magnitude: u32 = bits - SIGN_BIT;
            if magnitude > INFINITY_MAGNITUDE {
                None
            } else {
                Some(Scalar { key: -(magnitude as i32) })
            }
        } else if bits > INFINITY_MAGNITUDE {
            None
        } else {
            Some(Scalar { key: bits as i32 })
        }
    }

    /// The bit pattern of this scalar; zero comes out with a clear sign bit.
    pub fn to_bits(&self) -> (bits: u32)
        ensures
            bits == self.spec_to_bits(),
            !is_nan(bits),
            key_of(bits) == self@,
    {
        proof {
            use_type_invariant(self);
        }
        if self.key >= 0 {
            self.key as u32
        } else {
            SIGN_BIT + ((-self.key) as u32)
        }
    }

    /// Zero.
    pub fn zero() -> (r: Scalar)
        ensures
            r@ == 0,
            r == Scalar::with_key(0),
    {
        Scalar { key: 0 }
    }

    /// One.
    pub fn one() -> (r: Scalar)
        ensures
            r@ == ONE_BITS,
            r == Scalar::with_key(ONE_BITS as int),
    {
        Scalar { key: 0x3f80_0000 }
    }

    /// Positive infinity, above every other scalar.
    pub fn infinity() -> (r: Scalar)
        ensures
            r@ == INFINITY_MAGNITUDE,
    {
        Scalar { key: 0x7f80_0000 }
    }

    /// Negative infinity, below every other scalar.
    pub fn neg_infinity() -> (r: Scalar)
        ensures
            r@ == -(INFINITY_MAGNITUDE as int),
    {
        Scalar { key: -0x7f80_0000 }
    }

    /// `self < other`.
    pub fn lt(&self, other: &Scalar) -> (r: bool)
        ensures
            r == (self@ < other@),
    {
        self.key < other.key
    }

    /// `self <= other`.
    pub fn le(&self, other: &Scalar) -> (r: bool)
        ensures
            r == (self@ <= other@),
    {
        self.key <= other.key
    }

    /// The smaller of the two.
    pub fn min(self, other: Scalar) -> (r: Scalar)
        ensures
            r == self.spec_min(other),
    {
        if self.key <= other.key {
            self
        } else {
            other
        }
    }

    /// The larger of the two.
    pub fn max(self, other: Scalar) -> (r: Scalar)
        ensures
            r == self.spec_max(other),
    {
        if self.key >= other.key {
            self
        } else {
            other
        }
    }
}

/// Whether a value is a number below a bound.
pub open spec fn is_below(x: Option<Scalar>, bound: int) -> bool {
    x matches Some(s) && s@ < bound
}

/// Whether a value is a number above a bound.
pub open spec fn is_above(x: Option<Scalar>, bound: int) -> bool {
    x matches Some(s) && s@ > bound
}

/// Reading the pattern that `to_bits` wrote gives the scalar back.
pub proof fn lemma_to_bits_from_bits(s: Scalar)
    requires
        s.wf(),
    ensures
        Scalar::spec_from_bits(s.spec_to_bits()) == Some(s),
{
    Scalar::lemma_with_key(s);
}

/// Writing the scalar that `from_bits` read gives the pattern back, but for
/// the zero with the sign bit set, which comes back as plain zero.
pub proof fn lemma_from_bits_to_bits(bits: u32)
    requires
        !is_nan(bits),
    ensures
        Scalar::spec_from_bits(bits) matches Some(s) && s.wf() && s.spec_to_bits() == (if bits
            == SIGN_BIT {
            0
        } else {
            bits
        }),
{
    Scalar::lemma_key_of_with_key(key_of(bits));
}

/// Among patterns that are numbers, the signed magnitudes order as the
/// patterns read sign first: a pattern with the sign bit set is never above
/// one without it, within the clear sign the larger pattern is the larger
/// number, within the set sign the smaller one is.
pub proof fn lemma_key_order(a: u32, b: u32)
    requires
        !is_nan(a),
        !is_nan(b),
    ensures
        a < SIGN_BIT && b < SIGN_BIT ==> (key_of(a) < key_of(b) <==> a < b),
        a >= SIGN_BIT && b >= SIGN_BIT ==> (key_of(a) < key_of(b) <==> a > b),
        a >= SIGN_BIT && b < SIGN_BIT ==> key_of(a) <= key_of(b),
        a >= SIGN_BIT && b < SIGN_BIT ==> (key_of(a) == key_of(b) <==> a == SIGN_BIT && b == 0),
{
}

} // verus!
