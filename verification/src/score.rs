use vstd::arithmetic::power2::{
    lemma_pow2_pos, lemma_pow2_strictly_increases, lemma_pow2_unfold, pow2,
};
use vstd::prelude::*;

verus! {

/// The bit that holds the sign of a binary32 number.
pub const SIGN_BIT: u32 = 0x8000_0000;

/// The bits below the sign that hold the exponent; alone they spell infinity.
pub const EXPONENT_BITS: u32 = 0x7f80_0000;

/// A bit pattern without its sign bit.
pub open spec fn magnitude(bits: u32) -> int {
    if bits >= SIGN_BIT {
        bits - SIGN_BIT
    } else {
        bits as int
    }
}

/// Whether a binary32 bit pattern is a NaN: all exponent bits set and a
/// fraction that is not zero.
pub open spec fn is_nan(bits: u32) -> bool {
    magnitude(bits) > EXPONENT_BITS
}

/// The integer by which a binary32 bit pattern is ordered: the magnitude,
/// negated under the sign bit. Both zeros have the key 0.
pub open spec fn order_key(bits: u32) -> int {
    if bits >= SIGN_BIT {
        -magnitude(bits)
    } else {
        magnitude(bits)
    }
}

/// The number of fraction values under one exponent: 2 to the 23rd.
pub const FRACTION_RANGE: u32 = 0x80_0000;

/// The size of the binary32 number with the given magnitude, counted in
/// units of 2 to the -149th, the smallest size above zero: the fraction
/// alone under the exponent 0, and under an exponent e above it the
/// fraction with its leading one, doubled e - 1 times. Infinity, the
/// magnitude just past the largest finite one, continues the same scale.
pub open spec fn scaled_size(magnitude: int) -> int {
    let exponent = magnitude / (FRACTION_RANGE as int);
    let fraction = magnitude % (FRACTION_RANGE as int);
    if exponent == 0 {
        fraction
    } else {
        (FRACTION_RANGE + fraction) * pow2((exponent - 1) as nat)
    }
}

/// The binary32 number with the given bit pattern, in units of 2 to the
/// -149th. Both zeros have the value 0. The pattern of a NaN stands for no
/// number; what the scale gives it means nothing.
pub open spec fn scaled_value(bits: u32) -> int {
    if bits >= SIGN_BIT {
        -scaled_size(magnitude(bits))
    } else {
        scaled_size(magnitude(bits))
    }
}

/// A larger magnitude stands for a larger size.
proof fn lemma_size_increases(smaller: int, larger: int)
    requires
        0 <= smaller < larger,
    ensures
        0 <= scaled_size(smaller) < scaled_size(larger),
{
    let range = FRACTION_RANGE as int;
    let (e1, f1) = (smaller / range, smaller % range);
    let (e2, f2) = (larger / range, larger % range);
    assert(0 <= e1 <= e2 && 0 <= f1 < range && 0 <= f2 < range && (e1 == e2 ==> f1 < f2));
    if e2 > 0 {
        let unit_large = pow2((e2 - 1) as nat) as int;
        lemma_pow2_pos((e2 - 1) as nat);
        if e1 == 0 {
            assert(f1 < (range + f2) * unit_large) by (nonlinear_arith)
                requires
                    0 <= f1 < range,
                    0 <= f2,
                    unit_large >= 1,
            ;
        } else {
            let unit_small = pow2((e1 - 1) as nat) as int;
            lemma_pow2_pos((e1 - 1) as nat);
            if e1 == e2 {
                assert((range + f1) * unit_small < (range + f2) * unit_small) by (nonlinear_arith)
                    requires
                        f1 < f2,
                        unit_small >= 1,
                ;
            } else {
                lemma_pow2_unfold(e1 as nat);
                if e1 < e2 - 1 {
                    lemma_pow2_strictly_increases(e1 as nat, (e2 - 1) as nat);
                }
                assert(2 * unit_small <= unit_large);
                assert((range + f1) * unit_small < (range + f2) * unit_large) by (nonlinear_arith)
                    requires
                        0 <= f1 < range,
                        0 <= f2,
                        unit_small >= 1,
                        2 * unit_small <= unit_large,
                ;
            }
        }
    }
    if e1 > 0 {
        lemma_pow2_pos((e1 - 1) as nat);
        assert(0 <= (range + f1) * pow2((e1 - 1) as nat)) by (nonlinear_arith)
            requires
                0 <= f1,
                range > 0,
                pow2((e1 - 1) as nat) >= 1,
        ;
    }
}

/// The keys order bit patterns as the numbers behind them are ordered, and
/// two patterns have one key where they stand for one number.
pub proof fn lemma_key_orders_by_value(a: u32, b: u32)
    ensures
        order_key(a) < order_key(b) <==> scaled_value(a) < scaled_value(b),
        order_key(a) == order_key(b) <==> scaled_value(a) == scaled_value(b),
{
    let (ma, mb) = (magnitude(a), magnitude(b));
    assert(scaled_size(0) == 0);
    if ma > 0 {
        lemma_size_increases(0, ma);
    }
    if mb > 0 {
        lemma_size_increases(0, mb);
    }
    if ma < mb {
        lemma_size_increases(ma, mb);
    }
    if mb < ma {
        lemma_size_increases(mb, ma);
    }
}

/// A relevance score: a binary32 number that is not a NaN, kept as its bit
/// pattern. Scores are only ordered and handed back, never computed with.
#[derive(Clone, Copy, Debug, PartialEq, Eq, Structural)]
pub struct Score {
    bits: u32,
}

impl View for Score {
    type V = u32;

    /// A score stands for its bit pattern.
    closed spec fn view(&self) -> u32 {
        self.bits
    }
}

impl Score {
    /// No score is a NaN.
    #[verifier::type_invariant]
    pub open spec fn wf(self) -> bool {
        !is_nan(self@)
    }

    /// The integer that orders this score among all scores.
    pub open spec fn key(self) -> int {
        order_key(self@)
    }

    /// The number this score stands for, in units of 2 to the -149th.
    pub open spec fn value(self) -> int {
        scaled_value(self@)
    }

    /// Scores are ordered by their keys as by their values.
    pub proof fn lemma_key_orders_by_value(self, other: Score)
        ensures
            self.key() < other.key() <==> self.value() < other.value(),
            self.key() == other.key() <==> self.value() == other.value(),
    {
        lemma_key_orders_by_value(self@, other@);
    }

    /// The score with the given bit pattern; none for the pattern of a NaN,
    /// which has no place in an order.
    pub fn from_bits(bits: u32) -> (score: Option<Score>)
        ensures
            match score {
                Some(s) => !is_nan(bits) && s@ == bits && s.wf(),
                None => is_nan(bits),
            },
    {
        let magnitude: u32 = if bits >= SIGN_BIT {
            bits - SIGN_BIT
        } else {
            bits
        };
        if magnitude > EXPONENT_BITS {
            None
        } else {
            Some(Score { bits })
        }
    }

    /// The bit pattern of this score.
    pub fn to_bits(self) -> (bits: u32)
        ensures
            bits == self@,
            !is_nan(bits),
    {
        proof {
            use_type_invariant(self);
        }
        self.bits
    }

    /// The ordering key as a machine integer.
    pub fn sort_key(self) -> (key: i64)
        ensures
            key == self.key(),
    {
        if self.bits >= SIGN_BIT {
            -((self.bits - SIGN_BIT) as i64)
        } else {
            self.bits as i64
        }
    }
}

} // verus!
