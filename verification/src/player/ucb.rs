//! The arithmetic of the tree search with random playouts. Rewards and
//! returns are counted in thousandths of a unit, the exploration constant
//! too, and every formula is worked out in whole numbers.

use vstd::prelude::*;
use crate::score::Score;

verus! {

/// One unit of reward.
pub const UNIT: i64 = 1000;

/// The whole number nearest to zero that holds the quotient of `x` by the
/// positive `y`.
pub open spec fn quotient(x: int, y: int) -> int {
    if x >= 0 {
        x / y
    } else {
        -((-x) / y)
    }
}

/// `x` held to the range of the 64-bit returns.
pub open spec fn clamped(x: int) -> int {
    if x > i64::MAX {
        i64::MAX as int
    } else if x < i64::MIN {
        i64::MIN as int
    } else {
        x
    }
}

/// A count that has seen one more, as far as 64 bits can count.
pub open spec fn one_more(n: nat) -> nat {
    if n >= u64::MAX {
        u64::MAX as nat
    } else {
        n + 1
    }
}

/// The return of a step: its reward and the discounted return of what
/// follows, with the discount in thousandths.
pub open spec fn backed_up(reward: int, discount: int, later: int) -> int {
    clamped(reward + quotient(discount * later, 1000))
}

/// `r` is the whole part of the square root of `n`.
pub open spec fn is_sqrt(n: nat, r: nat) -> bool {
    r * r <= n < (r + 1) * (r + 1)
}

/// The whole part of the square root of `n`.
pub open spec fn sqrt_floor(n: nat) -> nat {
    choose|r: nat| is_sqrt(n, r)
}

/// The whole part of the logarithm of `t` to base 2, and 0 for 0.
pub open spec fn log2_floor(t: nat) -> nat
    decreases t,
{
    if t <= 1 {
        0
    } else {
        1 + log2_floor(t / 2)
    }
}

/// The largest power of 2 that is at most `t`, and 1 for 0.
pub open spec fn pow2_floor(t: nat) -> nat
    decreases t,
{
    if t <= 1 {
        1
    } else {
        2 * pow2_floor(t / 2)
    }
}

/// The natural logarithm of `t` in millionths, and 0 for 0. The logarithm
/// to base 2 is taken exactly at the powers of 2 and along a straight line
/// between two of them, and then turned into the natural logarithm.
pub open spec fn ln_micro(t: nat) -> nat {
    if t == 0 {
        0
    } else {
        let whole = log2_floor(t) * 1_000_000;
        let part = (t - pow2_floor(t)) * 1_000_000 / (pow2_floor(t) as int);
        ((whole + part) * 693_147 / 1_000_000) as nat
    }
}

/// The UCB1 score of an action, in thousandths: the mean of the returns
/// seen so far plus a bonus for actions that were tried seldom,
/// `c * sqrt(ln(time) / n_visits)`. An action that was never tried scores
/// above every number.
pub open spec fn ucb_score(c: nat, tot_g: int, n_visits: nat, time: nat) -> Score {
    if n_visits == 0 {
        Score::PosInf
    } else {
        let mean = quotient(tot_g, n_visits as int);
        let bonus = c * sqrt_floor(ln_micro(time) / n_visits) / 1000;
        Score::Finite(clamped(mean + bonus) as i64)
    }
}

/// A number has one square root only.
pub proof fn sqrt_is_unique(n: nat, r: nat, s: nat)
    requires
        is_sqrt(n, r),
        is_sqrt(n, s),
    ensures
        r == s,
{
    if r < s {
        assert((r + 1) * (r + 1) <= s * s) by (nonlinear_arith)
            requires
                r + 1 <= s,
        ;
    } else if s < r {
        assert((s + 1) * (s + 1) <= r * r) by (nonlinear_arith)
            requires
                s + 1 <= r,
        ;
    }
}

/// The largest power of 2 below `t` is positive and at most `t`, and the
/// logarithm of a 64-bit number is below 64.
pub proof fn pow2_floor_bounds(t: nat)
    ensures
        1 <= pow2_floor(t),
        t >= 1 ==> pow2_floor(t) <= t < 2 * pow2_floor(t),
        t <= u64::MAX ==> log2_floor(t) < 64,
    decreases t,
{
    if t > 1 {
        pow2_floor_bounds(t / 2);
        if t <= u64::MAX {
            vstd::arithmetic::power2::lemma2_to64();
            log2_below(t, 64);
        }
    }
}

/// A number below `2^k` has a logarithm below `k`.
proof fn log2_below(t: nat, k: nat)
    requires
        t < vstd::arithmetic::power2::pow2(k),
        k >= 1,
    ensures
        log2_floor(t) < k,
    decreases t,
{
    if t > 1 {
        vstd::arithmetic::power2::lemma_pow2_unfold(k);
        if k == 1 {
            vstd::arithmetic::power2::lemma2_to64();
        } else {
            log2_below(t / 2, (k - 1) as nat);
        }
    }
}

/// The return of a step, worked out without overflow.
pub fn back_up(reward: i64, discount: i64, later: i64) -> (g: i64)
    ensures
        g == backed_up(reward as int, discount as int, later as int),
{
    assert(-0x4000_0000_0000_0000_0000_0000_0000_0000 <= discount * later
        <= 0x4000_0000_0000_0000_0000_0000_0000_0000) by (nonlinear_arith)
        requires
            -0x8000_0000_0000_0000 <= discount <= 0x7fff_ffff_ffff_ffff,
            -0x8000_0000_0000_0000 <= later <= 0x7fff_ffff_ffff_ffff,
    ;
    let product: i128 = (discount as i128) * (later as i128);
    let share: i128 = if product >= 0 {
        product / 1000
    } else {
        -((-product) / 1000)
    };
    let sum: i128 = (reward as i128) + share;
    if sum > i64::MAX as i128 {
        i64::MAX
    } else if sum < i64::MIN as i128 {
        i64::MIN
    } else {
        sum as i64
    }
}

/// The sum of two returns, held to the range of the returns.
pub fn add_clamped(a: i64, b: i64) -> (sum: i64)
    ensures
        sum == clamped(a + b),
{
    let sum: i128 = (a as i128) + (b as i128);
    if sum > i64::MAX as i128 {
        i64::MAX
    } else if sum < i64::MIN as i128 {
        i64::MIN
    } else {
        sum as i64
    }
}

/// The whole part of the square root.
pub fn isqrt(n: u64) -> (r: u64)
    ensures
        is_sqrt(n as nat, r as nat),
        r == sqrt_floor(n as nat),
        r < 0x1_0000_0000,
{
    let mut lo: u64 = 0;
    let mut hi: u64 = 0x1_0000_0000;
    assert(0x1_0000_0000 * 0x1_0000_0000 > n) by (nonlinear_arith)
        requires
            n <= 0xffff_ffff_ffff_ffff,
    ;
    while hi - lo > 1
        invariant
            lo < hi <= 0x1_0000_0000,
            lo * lo <= n < hi * hi,
        decreases hi - lo,
    {
        let mid = lo + (hi - lo) / 2;
        assert(mid * mid <= 0xffff_ffff * 0xffff_ffff) by (nonlinear_arith)
            requires
                0 <= mid <= 0xffff_ffff,
        ;
        if mid * mid <= n {
            lo = mid;
        } else {
            hi = mid;
        }
    }
    proof {
        assert(is_sqrt(n as nat, lo as nat));
        sqrt_is_unique(n as nat, lo as nat, sqrt_floor(n as nat));
    }
    lo
}

/// The natural logarithm in millionths.
pub fn ln_millionths(t: u64) -> (l: u64)
    ensures
        l == ln_micro(t as nat),
        l <= 44_400_000,
{
    let mut k: u64 = 0;
    let mut p: u64 = 1;
    let mut x: u64 = t;
    while x > 1
        invariant
            log2_floor(t as nat) == k + log2_floor(x as nat),
            pow2_floor(t as nat) == p * pow2_floor(x as nat),
            p >= 1,
            p * x <= t,
        decreases x,
    {
        proof {
            pow2_floor_bounds((x / 2) as nat);
            pow2_floor_bounds(t as nat);
            assert(p * (2 * pow2_floor((x / 2) as nat)) == (p * 2) * pow2_floor((x / 2) as nat))
                by (nonlinear_arith);
            assert((p * 2) * (x / 2) <= p * x) by (nonlinear_arith)
                requires
                    2 * (x / 2) <= x,
                    p >= 1,
            ;
            assert(p * 2 <= p * x) by (nonlinear_arith)
                requires
                    x >= 2,
                    p >= 1,
            ;
        }
        x = x / 2;
        k = k + 1;
        p = p * 2;
    }
    proof {
        pow2_floor_bounds(t as nat);
        assert(p * 1 == p) by (nonlinear_arith);
        assert(pow2_floor(t as nat) == p);
        assert(log2_floor(t as nat) == k);
        if t == 0 {
            assert(x == 0);
        }
    }
    if t == 0 {
        return 0;
    }
    let whole: u128 = (k as u128) * 1_000_000;
    let over: u128 = (t - p) as u128;
    assert(over * 1_000_000 <= 0xffff_ffff_ffff_ffff * 1_000_000) by (nonlinear_arith)
        requires
            over <= 0xffff_ffff_ffff_ffff,
    ;
    let part: u128 = over * 1_000_000 / (p as u128);
    assert(part < 1_000_000) by {
        assert(over < p);
        assert(over * 1_000_000 < p * 1_000_000) by (nonlinear_arith)
            requires
                over < p,
        ;
        vstd::arithmetic::div_mod::lemma_multiply_divide_lt(
            (over * 1_000_000) as int,
            p as int,
            1_000_000,
        );
    }
    let l = (whole + part) * 693_147 / 1_000_000;
    l as u64
}

/// The UCB1 formula,
/// the constant c needs to be passed in.
/// by default, c=2.0 is often used
/// if the branching factor is large, c should be smaller
pub fn ucb(c: u32, tot_g: i64, n_visists: u64, time: u64) -> (s: Score)
    ensures
        s == ucb_score(c as nat, tot_g as int, n_visists as nat, time as nat),
{
    if n_visists == 0 {
        return Score::PosInf;
    }
    let mean: i128 = if tot_g >= 0 {
        ((tot_g as u64) / n_visists) as i128
    } else {
        let size: u128 = (-(tot_g as i128)) as u128;
        -((size / (n_visists as u128)) as i128)
    };
    let root = isqrt(ln_millionths(time) / n_visists);
    assert(c * root <= 0xffff_ffff * 0xffff_ffff) by (nonlinear_arith)
        requires
            0 <= c <= 0xffff_ffff,
            0 <= root <= 0xffff_ffff,
    ;
    let bonus: u64 = (c as u64) * root / 1000;
    let sum: i128 = mean + (bonus as i128);
    if sum > i64::MAX as i128 {
        Score::Finite(i64::MAX)
    } else if sum < i64::MIN as i128 {
        Score::Finite(i64::MIN)
    } else {
        Score::Finite(sum as i64)
    }
}

} // verus!
