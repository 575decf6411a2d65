//! IEEE-754 single-precision values carried as bit patterns, with the
//! comparisons, clamping and rounding that the evaluator and the policies use.
use vstd::prelude::*;

verus! {

/// A single-precision float, stored as its IEEE-754 bit pattern.
#[derive(Debug, Clone, Copy, PartialEq, Eq, Structural)]
pub struct Real32 {
    pub bits: u32,
}

/// The magnitude bits (exponent and mantissa).
pub open spec fn magnitude(b: u32) -> int {
    (b % 0x8000_0000) as int
}

pub open spec fn is_negative(b: u32) -> bool {
    b >= 0x8000_0000
}

pub open spec fn is_nan(b: u32) -> bool {
    magnitude(b) > 0x7f80_0000
}

/// A key whose integer order is the order of the non-NaN values; both
/// zeros get the key 0.
pub open spec fn order_key(b: u32) -> int {
    if is_negative(b) {
        -magnitude(b)
    } else {
        magnitude(b)
    }
}

/// IEEE `a <= b` (false when either is NaN).
pub open spec fn real_le(a: Real32, b: Real32) -> bool {
    !is_nan(a.bits) && !is_nan(b.bits) && order_key(a.bits) <= order_key(b.bits)
}

/// IEEE `a < b` (false when either is NaN).
pub open spec fn real_lt(a: Real32, b: Real32) -> bool {
    !is_nan(a.bits) && !is_nan(b.bits) && order_key(a.bits) < order_key(b.bits)
}

/// `min(max(x, lo), hi)`: raised to `lo` (a NaN `x` becomes `lo`), then
/// lowered to `hi`; with `hi < lo` the result is `hi`.
pub open spec fn clamp_spec(x: Real32, lo: Real32, hi: Real32) -> Real32 {
    let raised = raise_spec(x, lo);
    if real_lt(hi, raised) {
        hi
    } else {
        raised
    }
}

/// `max(x, lo)`, with NaN mapped to `lo`.
pub open spec fn raise_spec(x: Real32, lo: Real32) -> Real32 {
    if is_nan(x.bits) || real_lt(x, lo) {
        lo
    } else {
        x
    }
}

pub open spec fn pow2(n: nat) -> nat
    decreases n,
{
    if n == 0 {
        1
    } else {
        2 * pow2((n - 1) as nat)
    }
}

/// The biased exponent field.
pub open spec fn exponent(b: u32) -> int {
    magnitude(b) / 0x80_0000
}

/// The significand with its implicit leading one.
pub open spec fn significand(b: u32) -> int {
    0x80_0000 + magnitude(b) % 0x80_0000
}

/// Rounds half away from zero and converts with saturation, as
/// `x.round() as u32` does: NaN and negative values give 0, values from
/// 2^32 up give `u32::MAX`.
pub open spec fn round_u32_spec(x: Real32) -> u32 {
    let e = exponent(x.bits);
    let m = significand(x.bits);
    if is_nan(x.bits) || is_negative(x.bits) || e < 126 {
        0
    } else if e >= 159 {
        u32::MAX
    } else if e >= 150 {
        (m * pow2((e - 150) as nat)) as u32
    } else {
        let p = pow2((150 - e) as nat) as int;
        (m / p + if m % p >= p / 2 {
            1int
        } else {
            0int
        }) as u32
    }
}

proof fn lemma_pow2_mono(a: nat, b: nat)
    requires
        a <= b,
    ensures
        1 <= pow2(a) <= pow2(b),
    decreases b,
{
    if a < b {
        lemma_pow2_mono(a, (b - 1) as nat);
    } else if a > 0 {
        lemma_pow2_mono((a - 1) as nat, (a - 1) as nat);
    }
}

fn pow2_exec(n: u32) -> (r: u64)
    requires
        n <= 32,
    ensures
        r == pow2(n as nat),
{
    proof {
        reveal_with_fuel(pow2, 33);
        lemma_pow2_mono(n as nat, 32);
    }
    let mut r: u64 = 1;
    let mut i: u32 = 0;
    while i < n
        invariant
            i <= n <= 32,
            r == pow2(i as nat),
            pow2(n as nat) <= 0x1_0000_0000,
        decreases n - i,
    {
        proof {
            lemma_pow2_mono((i + 1) as nat, n as nat);
        }
        r = r * 2;
        i = i + 1;
    }
    r
}

impl Real32 {
    pub fn from_bits(bits: u32) -> (r: Real32)
        ensures
            r.bits == bits,
    {
        Real32 { bits }
    }

    pub fn to_bits(self) -> (r: u32)
        ensures
            r == self.bits,
    {
        self.bits
    }

    pub fn is_nan(self) -> (r: bool)
        ensures
            r == is_nan(self.bits),
    {
        self.bits % 0x8000_0000 > 0x7f80_0000
    }

    fn key(self) -> (r: i64)
        ensures
            r == order_key(self.bits),
    {
        let m = (self.bits % 0x8000_0000) as i64;
        if self.bits >= 0x8000_0000 {
            -m
        } else {
            m
        }
    }

    /// `self <= other` as IEEE compares.
    pub fn le(self, other: Real32) -> (r: bool)
        ensures
            r == real_le(self, other),
    {
        !self.is_nan() && !other.is_nan() && self.key() <= other.key()
    }

    /// `self < other` as IEEE compares.
    pub fn lt(self, other: Real32) -> (r: bool)
        ensures
            r == real_lt(self, other),
    {
        !self.is_nan() && !other.is_nan() && self.key() < other.key()
    }

    /// `min(max(self, lo), hi)`, with NaN mapped to `lo`: first raised to
    /// `lo`, then lowered to `hi`.
    pub fn clamp(self, lo: Real32, hi: Real32) -> (r: Real32)
        ensures
            r == clamp_spec(self, lo, hi),
    {
        let raised = if self.is_nan() || self.lt(lo) {
            lo
        } else {
            self
        };
        if hi.lt(raised) {
            hi
        } else {
            raised
        }
    }

    /// `self.round() as u32`.
    pub fn round_u32(self) -> (r: u32)
        ensures
            r == round_u32_spec(self),
    {
        let mag = self.bits % 0x8000_0000;
        let e = mag / 0x80_0000;
        let m = (0x80_0000 + mag % 0x80_0000) as u64;
        if self.is_nan() || self.bits >= 0x8000_0000 || e < 126 {
            return 0;
        }
        if e >= 159 {
            return u32::MAX;
        }
        if e >= 150 {
            let p = pow2_exec(e - 150);
            proof {
                lemma_pow2_mono((e - 150) as nat, 8);
                reveal_with_fuel(pow2, 9);
                assert(m * p <= 0x100_0000 * 0x100) by (nonlinear_arith)
                    requires
                        m < 0x100_0000,
                        p <= 0x100,
                ;
            }
            return (m * p) as u32;
        }
        let p = pow2_exec(150 - e);
        proof {
            lemma_pow2_mono(1, (150 - e) as nat);
            reveal_with_fuel(pow2, 2);
            assert(m / p <= m) by (nonlinear_arith)
                requires
                    p >= 1,
                    m >= 0,
            ;
        }
        let q = m / p;
        let rem = m % p;
        if rem >= p / 2 {
            (q + 1) as u32
        } else {
            q as u32
        }
    }
}

} // verus!
