use vstd::prelude::*;

verus! {

/// A non-negative decimal fixed-point number: the integer `v` stands for
/// `v / 1_000_000`. Every time, frame position, speed, progress amount and
/// weight of the runtime is a `Fixed`.
pub type Fixed = u64;

/// Milliseconds, as a [`Fixed`].
pub type TimeMS = Fixed;

/// The index of a key frame on a curve.
pub type FrameIndex = u16;

/// A frame rate, in frames per second.
pub type FramePerSecond = u16;

/// The index of a value type, allocated once per animated value type.
pub type KeyFrameDataType = usize;

/// The fixed-point representation of `1.0`.
pub const FIXED_ONE: Fixed = 1_000_000;

/// The largest representable [`Fixed`]; arithmetic saturates here.
pub const FIXED_MAX: Fixed = 0xffff_ffff_ffff_ffff;

/// `x`, cut off at the largest `Fixed`.
pub open spec fn saturate(x: int) -> int {
    if x > FIXED_MAX {
        FIXED_MAX as int
    } else {
        x
    }
}

/// `a * b / c`, rounded down and saturated. A division by zero gives the
/// largest value, except that a zero numerator gives zero.
pub open spec fn scaled(a: int, b: int, c: int) -> int {
    if c == 0 {
        if a * b == 0 {
            0
        } else {
            FIXED_MAX as int
        }
    } else {
        saturate(a * b / c)
    }
}

/// The product of two fixed-point numbers.
pub open spec fn fixed_product(a: int, b: int) -> int {
    scaled(a, b, FIXED_ONE as int)
}

/// The quotient of two fixed-point numbers.
pub open spec fn fixed_quotient(a: int, b: int) -> int {
    scaled(a, FIXED_ONE as int, b)
}

/// `a + b`, saturated.
pub open spec fn saturating_sum(a: int, b: int) -> int {
    saturate(a + b)
}

proof fn lemma_product_fits(a: u64, b: u64)
    ensures
        0 <= a * b <= 0xffff_ffff_ffff_ffff * 0xffff_ffff_ffff_ffff,
{
    assert(0 <= a * b <= 0xffff_ffff_ffff_ffff * 0xffff_ffff_ffff_ffff) by (nonlinear_arith)
        requires
            0 <= a <= 0xffff_ffff_ffff_ffff,
            0 <= b <= 0xffff_ffff_ffff_ffff,
    ;
}

/// Computes `a * b / c` without intermediate overflow.
pub fn mul_div(a: u64, b: u64, c: u64) -> (r: u64)
    ensures
        r == scaled(a as int, b as int, c as int),
{
    proof {
        lemma_product_fits(a, b);
    }
    let product: u128 = (a as u128) * (b as u128);
    if c == 0 {
        if product == 0 {
            0
        } else {
            FIXED_MAX
        }
    } else {
        let quotient: u128 = product / (c as u128);
        if quotient > FIXED_MAX as u128 {
            FIXED_MAX
        } else {
            quotient as u64
        }
    }
}

/// Multiplies two fixed-point numbers.
pub fn fixed_mul(a: Fixed, b: Fixed) -> (r: Fixed)
    ensures
        r == fixed_product(a as int, b as int),
{
    mul_div(a, b, FIXED_ONE)
}

/// Divides two fixed-point numbers.
pub fn fixed_div(a: Fixed, b: Fixed) -> (r: Fixed)
    ensures
        r == fixed_quotient(a as int, b as int),
{
    mul_div(a, FIXED_ONE, b)
}

/// Adds two fixed-point numbers.
pub fn fixed_add(a: Fixed, b: Fixed) -> (r: Fixed)
    ensures
        r == saturating_sum(a as int, b as int),
{
    if a > FIXED_MAX - b {
        FIXED_MAX
    } else {
        a + b
    }
}

/// What a group shows outside its active interval.
#[allow(non_camel_case_types)]
#[derive(Debug, Clone, Copy, PartialEq, Eq, Structural)]
pub enum EFillMode {
    /// No hold at either end.
    NONE,
    /// Hold the final frame after the end.
    FORWARDS,
    /// Hold the first frame while a start delay runs.
    BACKWARDS,
    /// Both holds.
    BOTH,
}

impl EFillMode {
    /// Whether the mode holds the final frame after the end.
    pub open spec fn fills_forwards(self) -> bool {
        self == EFillMode::FORWARDS || self == EFillMode::BOTH
    }

    /// Whether the mode holds the first frame during the delay.
    pub open spec fn fills_backwards(self) -> bool {
        self == EFillMode::BACKWARDS || self == EFillMode::BOTH
    }

    /// The flags as bits: 1 for forwards, 2 for backwards.
    pub open spec fn spec_bits(self) -> u8 {
        match self {
            EFillMode::NONE => 0,
            EFillMode::FORWARDS => 1,
            EFillMode::BACKWARDS => 2,
            EFillMode::BOTH => 3,
        }
    }

    /// The flags as bits: 1 for forwards, 2 for backwards.
    pub fn bits(&self) -> (r: u8)
        ensures
            r == self.spec_bits(),
    {
        match self {
            EFillMode::NONE => 0,
            EFillMode::FORWARDS => 1,
            EFillMode::BACKWARDS => 2,
            EFillMode::BOTH => 3,
        }
    }

    /// Tests the forwards flag.
    pub fn has_forwards(&self) -> (r: bool)
        ensures
            r == self.fills_forwards(),
    {
        match self {
            EFillMode::FORWARDS | EFillMode::BOTH => true,
            _ => false,
        }
    }

    /// Tests the backwards flag.
    pub fn has_backwards(&self) -> (r: bool)
        ensures
            r == self.fills_backwards(),
    {
        match self {
            EFillMode::BACKWARDS | EFillMode::BOTH => true,
            _ => false,
        }
    }
}

} // verus!
