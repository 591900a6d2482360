use vstd::prelude::*;
use vstd::math::abs;

verus! {

/// Largest mantissa magnitude a `Dec` may carry.  With `scale <= MAX_SCALE`
/// every cross-multiplied comparison below stays within `i128`.
pub const MANTISSA_LIMIT: i64 = 1_000_000_000_000_000_000;

/// Largest scale (number of fractional digits) a `Dec` may carry.
pub const MAX_SCALE: u32 = 9;

/// An exact decimal number with value `mantissa / 10^scale`.
///
/// Prices are decimal quantities; comparisons and growth-ratio tests on them
/// must be exact, so they are carried as a bounded mantissa/scale pair and
/// compared by cross-multiplication instead of by any rounding division.
#[derive(Clone, Copy, PartialEq, Eq, Structural, Debug)]
pub struct Dec {
    pub mantissa: i64,
    pub scale: u32,
}

/// `10^e`.
pub open spec fn pow10(e: nat) -> int
    decreases e,
{
    if e == 0 {
        1
    } else {
        10 * pow10((e - 1) as nat)
    }
}

pub proof fn lemma_pow10_pos(e: nat)
    ensures
        pow10(e) >= 1,
    decreases e,
{
    if e > 0 {
        lemma_pow10_pos((e - 1) as nat);
    }
}

pub proof fn lemma_pow10_mono(a: nat, b: nat)
    requires
        a <= b,
    ensures
        pow10(a) <= pow10(b),
    decreases b,
{
    if a < b {
        lemma_pow10_mono(a, (b - 1) as nat);
        lemma_pow10_pos((b - 1) as nat);
    }
}

pub proof fn lemma_pow10_at_max_scale()
    ensures
        pow10(MAX_SCALE as nat) == 1_000_000_000,
{
    reveal_with_fuel(pow10, 10);
}

/// Bound on the products formed when two `Dec` values are cross-multiplied.
pub proof fn lemma_cross_mul_bound(m: int, p: int)
    requires
        -1_000_000_000_000_000_000 <= m <= 1_000_000_000_000_000_000,
        1 <= p <= 1_000_000_000,
    ensures
        -1_000_000_000_000_000_000_000_000_000 <= m * p
            <= 1_000_000_000_000_000_000_000_000_000,
{
    assert(-1_000_000_000_000_000_000_000_000_000 <= m * p
        <= 1_000_000_000_000_000_000_000_000_000) by (nonlinear_arith)
        requires
            -1_000_000_000_000_000_000 <= m <= 1_000_000_000_000_000_000,
            1 <= p <= 1_000_000_000,
    ;
}

/// `10^e` as a machine integer, for the scales a `Dec` may carry.
pub fn pow10_exec(e: u32) -> (r: i64)
    requires
        e <= MAX_SCALE,
    ensures
        r == pow10(e as nat),
        1 <= r <= 1_000_000_000,
{
    let mut r: i64 = 1;
    let mut i: u32 = 0;
    while i < e
        invariant
            i <= e <= MAX_SCALE,
            r == pow10(i as nat),
        decreases e - i,
    {
        proof {
            lemma_pow10_pos(i as nat);
            lemma_pow10_mono((i + 1) as nat, MAX_SCALE as nat);
            lemma_pow10_at_max_scale();
            assert(r * 10 == pow10((i + 1) as nat));
            assert(1 <= r * 10 <= 1_000_000_000);
        }
        r = r * 10;
        i = i + 1;
    }
    proof {
        lemma_pow10_pos(e as nat);
        lemma_pow10_mono(e as nat, MAX_SCALE as nat);
        lemma_pow10_at_max_scale();
    }
    r
}

/// Whether a non-negative magnitude/scale pair can be brought within `Dec`'s
/// bounds by stripping trailing zero digits of the mantissa (each stripped
/// digit lowering the scale by one, so the value never changes).
pub open spec fn representable_mag(a: int, s: nat) -> bool
    decreases s,
{
    if s <= MAX_SCALE && a <= MANTISSA_LIMIT {
        true
    } else if s > 0 && a % 10 == 0 {
        representable_mag(a / 10, (s - 1) as nat)
    } else {
        false
    }
}

/// Exact rational comparison `num / den >= t_num / t_den`, for `den != 0` and
/// `t_den > 0`.  Multiplying through by the denominators flips the inequality
/// exactly when `den` is negative.
pub open spec fn ratio_ge(num: int, den: int, t_num: int, t_den: int) -> bool {
    if den > 0 {
        t_den * num >= t_num * den
    } else {
        t_den * num <= t_num * den
    }
}

/// `a < b` as exact rationals (`a.mantissa / 10^a.scale < b.mantissa / 10^b.scale`).
/// Both denominators are positive, so cross-multiplication preserves the order.
pub open spec fn dec_lt(a: Dec, b: Dec) -> bool {
    a.mantissa * b.den() < b.mantissa * a.den()
}

impl Dec {
    /// Bounds under which all cross-multiplied arithmetic on `Dec` fits `i128`.
    pub open spec fn wf(self) -> bool {
        &&& self.scale <= MAX_SCALE
        &&& -MANTISSA_LIMIT <= self.mantissa <= MANTISSA_LIMIT
    }

    /// Denominator of the represented value.
    pub open spec fn den(self) -> int {
        pow10(self.scale as nat)
    }

    pub open spec fn is_zero_spec(self) -> bool {
        self.mantissa == 0
    }

    /// The zero sentinel used to pad missing history.
    pub open spec fn zero_spec() -> Dec {
        Dec { mantissa: 0, scale: 0 }
    }

    pub fn new(mantissa: i64, scale: u32) -> (d: Dec)
        requires
            scale <= MAX_SCALE,
            -MANTISSA_LIMIT <= mantissa <= MANTISSA_LIMIT,
        ensures
            d == (Dec { mantissa, scale }),
            d.wf(),
    {
        Dec { mantissa, scale }
    }

    /// Checked constructor: `Some` exactly on the mantissa/scale pairs `Dec` admits.
    pub fn try_new(mantissa: i64, scale: u32) -> (d: Option<Dec>)
        ensures
            d == if scale <= MAX_SCALE && -MANTISSA_LIMIT <= mantissa <= MANTISSA_LIMIT {
                Some(Dec { mantissa, scale })
            } else {
                None::<Dec>
            },
    {
        if scale <= MAX_SCALE && -MANTISSA_LIMIT <= mantissa && mantissa <= MANTISSA_LIMIT {
            Some(Dec { mantissa, scale })
        } else {
            None
        }
    }

    /// Conversion from a wide mantissa/scale pair, as a store's decimals
    /// expose it.  Trailing zero digits of the mantissa are stripped until
    /// the pair fits `Dec`'s bounds; `None` exactly when no amount of
    /// stripping makes it fit.  The value carried is unchanged.
    pub fn from_parts(mantissa: i128, scale: u32) -> (d: Option<Dec>)
        requires
            mantissa != i128::MIN,
        ensures
            d is Some <==> representable_mag(abs(mantissa as int) as int, scale as nat),
            d matches Some(v) ==> v.wf() && (v.mantissa as int) * pow10(scale as nat) == (
            mantissa as int) * pow10(v.scale as nat),
    {
        let negative = mantissa < 0;
        let mut a: u128 = if negative {
            (-mantissa) as u128
        } else {
            mantissa as u128
        };
        let mut s: u32 = scale;
        while (s > MAX_SCALE || a > MANTISSA_LIMIT as u128) && s > 0 && a % 10 == 0
            invariant
                representable_mag(abs(mantissa as int) as int, scale as nat) == representable_mag(
                    a as int,
                    s as nat,
                ),
                (a as int) * pow10(scale as nat) == abs(mantissa as int) * pow10(s as nat),
                s <= scale,
            decreases s,
        {
            proof {
                assert(a == 10 * (a / 10));
                assert((10 * ((a / 10) as int)) * pow10(scale as nat) == 10 * (((a / 10) as int)
                    * pow10(scale as nat))) by (nonlinear_arith);
                assert(abs(mantissa as int) * (10 * pow10((s - 1) as nat)) == 10 * (abs(
                    mantissa as int,
                ) * pow10((s - 1) as nat))) by (nonlinear_arith);
                assert(pow10(s as nat) == 10 * pow10((s - 1) as nat));
            }
            a = a / 10;
            s = s - 1;
        }
        if s <= MAX_SCALE && a <= MANTISSA_LIMIT as u128 {
            proof {
                if negative {
                    assert(mantissa as int == -(abs(mantissa as int) as int));
                    assert((-(a as int)) * pow10(scale as nat) == -((a as int) * pow10(
                        scale as nat,
                    ))) by (nonlinear_arith);
                    assert((mantissa as int) * pow10(s as nat) == -(abs(mantissa as int) * pow10(
                        s as nat,
                    ))) by (nonlinear_arith)
                        requires
                            mantissa as int == -(abs(mantissa as int) as int),
                    ;
                }
            }
            let m64: i64 = if negative {
                -(a as i64)
            } else {
                a as i64
            };
            Some(Dec { mantissa: m64, scale: s })
        } else {
            None
        }
    }

    pub fn zero() -> (d: Dec)
        ensures
            d == Dec::zero_spec(),
            d.wf(),
    {
        Dec { mantissa: 0, scale: 0 }
    }

    pub fn is_zero(&self) -> (r: bool)
        ensures
            r == self.is_zero_spec(),
    {
        self.mantissa == 0
    }

    /// Exact order test by cross-multiplication; no division, no rounding.
    pub fn lt(&self, other: &Dec) -> (r: bool)
        requires
            self.wf(),
            other.wf(),
        ensures
            r == dec_lt(*self, *other),
    {
        let sd = pow10_exec(self.scale);
        let od = pow10_exec(other.scale);
        proof {
            lemma_cross_mul_bound(self.mantissa as int, od as int);
            lemma_cross_mul_bound(other.mantissa as int, sd as int);
        }
        let lhs: i128 = (self.mantissa as i128) * (od as i128);
        let rhs: i128 = (other.mantissa as i128) * (sd as i128);
        lhs < rhs
    }
}

} // verus!
