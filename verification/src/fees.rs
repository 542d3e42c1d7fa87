//! Fee schedule and the integer arithmetic that the registry's money rules use.
use vstd::prelude::*;

verus! {

/// Base surge fee, in basis points.
pub const BASE_BPS: i128 = 50;

/// Highest surge fee, in basis points.
pub const MAX_BPS: i128 = 200;

/// Number of participants that make up one fee step.
pub const STEP: u32 = 10;

/// Basis points added per step of participants.
pub const BPS_PER_STEP: i128 = 5;

/// One whole in basis points.
pub const BPS_DENOMINATOR: i128 = 10_000;

/// The surge fee in basis points for `participants` participants:
/// 50 bp, plus 5 bp for every complete group of 10 participants, capped at 200 bp.
pub open spec fn fee_bps(participants: int) -> int {
    let uncapped = 50 + (participants / 10) * 5;
    if uncapped > 200 {
        200
    } else {
        uncapped
    }
}

/// `x` is a value of `i128`.
pub open spec fn fits_i128(x: int) -> bool {
    i128::MIN <= x <= i128::MAX
}

/// Integer division rounding toward zero, as `/` does on Rust's signed integers.
pub open spec fn div_toward_zero(x: int, d: int) -> int {
    if x >= 0 && d > 0 {
        x / d
    } else if x < 0 && d < 0 {
        (-x) / (-d)
    } else if x < 0 {
        -((-x) / d)
    } else {
        -(x / (-d))
    }
}

/// Returns the fee in basis points (1 bp = 0.01 %) charged on a stake when the call
/// already has `participant_count` participants.
/// Base fee: 50 bp (0.5 %).  Each additional 10 participants adds 5 bp, capped at 200 bp (2 %).
///
/// | participants | fee bp |
/// |-------------|--------|
/// | 0–9         | 50     |
/// | 10–19       | 55     |
/// | …           | …      |
/// | ≥300        | 200    |
pub fn compute_fee_basis_points(participant_count: u32) -> (bps: i128)
    ensures
        bps == fee_bps(participant_count as int),
        participant_count < 300 ==> bps == 50 + 5 * (participant_count / 10),
        participant_count >= 300 ==> bps == 200,
{
    proof {
        lemma_fee_schedule(participant_count as int);
    }
    let steps: i128 = (participant_count / STEP) as i128;
    let fee: i128 = BASE_BPS + steps * BPS_PER_STEP;
    if fee > MAX_BPS {
        MAX_BPS
    } else {
        fee
    }
}

/// The fee schedule stays between the base fee and the cap, and never falls as
/// participants join: fewer participants never pay a higher rate.
pub proof fn lemma_fee_bps_bounded_and_monotonic(fewer: int, more: int)
    requires
        0 <= fewer <= more,
    ensures
        50 <= fee_bps(fewer) <= 200,
        fee_bps(fewer) <= fee_bps(more),
        more >= 300 ==> fee_bps(more) == 200,
        fewer < 10 ==> fee_bps(fewer) == 50,
{
    vstd::arithmetic::div_mod::lemma_div_is_ordered(fewer, more, 10);
    if more >= 300 {
        vstd::arithmetic::div_mod::lemma_div_is_ordered(300, more, 10);
    }
    vstd::arithmetic::div_mod::lemma_div_is_ordered(0, fewer, 10);
    if fewer < 10 {
        vstd::arithmetic::div_mod::lemma_basic_div(fewer, 10);
    }
}

/// The fee schedule in full: below 300 participants the fee is 50 bp plus 5 bp for
/// each complete group of 10; from 300 on it is the 200 bp cap. Each further group of
/// 10 participants below 300 raises it by exactly 5 bp, and fewer than 10 pay 50 bp.
pub proof fn lemma_fee_schedule(p: int)
    requires
        p >= 0,
    ensures
        p < 300 ==> fee_bps(p) == 50 + 5 * (p / 10),
        p >= 300 ==> fee_bps(p) == 200,
        p < 290 ==> fee_bps(p + 10) == fee_bps(p) + 5,
        p < 10 ==> fee_bps(p) == 50,
{
    vstd::arithmetic::div_mod::lemma_fundamental_div_mod(p, 10);
    vstd::arithmetic::div_mod::lemma_mod_pos_bound(p, 10);
    vstd::arithmetic::div_mod::lemma_fundamental_div_mod(p + 10, 10);
    vstd::arithmetic::div_mod::lemma_mod_pos_bound(p + 10, 10);
    assert((p + 10) / 10 == p / 10 + 1);
}

/// Rounding each share down never gives more than rounding the total down:
/// `x / w + y / w <= (x + y) / w` for non-negative `x`, `y` and positive `w`.
pub proof fn lemma_floor_sum(x: int, y: int, w: int)
    requires
        x >= 0,
        y >= 0,
        w > 0,
    ensures
        x / w + y / w <= (x + y) / w,
{
    vstd::arithmetic::div_mod::lemma_fundamental_div_mod(x, w);
    vstd::arithmetic::div_mod::lemma_fundamental_div_mod(y, w);
    vstd::arithmetic::div_mod::lemma_fundamental_div_mod(x + y, w);
    let qx = x / w;
    let qy = y / w;
    let q = (x + y) / w;
    assert(q >= qx + qy) by (nonlinear_arith)
        requires
            x == w * qx + x % w,
            y == w * qy + y % w,
            x + y == w * q + (x + y) % w,
            0 <= x % w < w,
            0 <= y % w < w,
            0 <= (x + y) % w < w,
            w > 0,
    ;
}

} // verus!
