//! The forecasting statistics: Brier scores, the asymmetry of position sizes
//! between right and wrong calls, and the equity curves.
//!
//! Every sum is exact, for decimals of any size and precision. The divisions
//! that close each statistic are left to the caller's decimal type: each
//! function gives the exact numerator and divisor.
use vstd::prelude::*;

use crate::decimal::{
    abs_diff_digits, add_digits, copy_digits, digits_of_u64, digits_value, is_digits,
    lemma_take_value_step, lemma_value_at_least_digit, mul_digits, pow10, shift_digits,
    signed_add, signed_value,
};

verus! {

// ---------------------------------------------------------------------------
// Brier scores
// ---------------------------------------------------------------------------

/// A decimal number of any size and precision: `digits` (least significant
/// first) read as a whole number, negated where `negative`, times `10^-scale`.
#[derive(Clone, Debug, PartialEq, Eq)]
pub struct Decimal {
    pub negative: bool,
    pub digits: Vec<u8>,
    pub scale: i64,
}

/// The signed whole number that a decimal's digits stand for: the decimal's
/// value times `10^scale`.
pub open spec fn decimal_mantissa(d: Decimal) -> int {
    if d.negative {
        -(digits_value(d.digits@) as int)
    } else {
        digits_value(d.digits@) as int
    }
}

/// A resolved forecast: the probability in percent and the outcome.
#[derive(Clone, Debug)]
pub struct Forecast {
    pub probability: Decimal,
    pub outcome: i32,
}

/// The power of ten that makes the forecast's share `p / 100` a whole number
/// (`p / 100 == mantissa / 10^(scale + 2)`).
pub open spec fn share_exp(f: Forecast) -> int {
    f.probability.scale + 2
}

/// The power of ten at which every forecast's error is a whole number: the
/// largest `share_exp`, and at least 0.
pub open spec fn common_exp(fs: Seq<Forecast>) -> int
    decreases fs.len(),
{
    if fs.len() == 0 {
        0
    } else {
        let e = common_exp(fs.drop_last());
        let x = share_exp(fs.last());
        if x > e {
            x
        } else {
            e
        }
    }
}

/// The share `p / 100` times `10^e`, for `e` at least `share_exp(f)`.
pub open spec fn scaled_share(f: Forecast, e: int) -> int {
    decimal_mantissa(f.probability) * pow10((e - share_exp(f)) as nat)
}

/// The forecast's error `p / 100 - o` times `10^e`, for `e` at least
/// `share_exp(f)` and 0.
pub open spec fn scaled_error(f: Forecast, e: int) -> int {
    scaled_share(f, e) - f.outcome * pow10(e as nat)
}

/// The sum of the squared errors of the first `n` forecasts, each error
/// times `10^e` (so the sum is the exact sum of squared errors times `10^(2e)`).
pub open spec fn squared_errors(fs: Seq<Forecast>, e: int, n: int) -> int
    decreases n,
{
    if n <= 0 {
        0
    } else {
        squared_errors(fs, e, n - 1) + scaled_error(fs[n - 1], e) * scaled_error(fs[n - 1], e)
    }
}

/// A Brier score as an exact fraction: the digits of a sum of squared errors
/// (least significant first) over `10^exponent`, divided by `divisor`; or
/// zero for a side without forecasts.
#[derive(Clone, Debug, PartialEq, Eq)]
pub enum BrierScore {
    Zero,
    Mean { sum: Vec<u8>, exponent: u128, divisor: u64 },
}

/// `r` is the Brier score of the forecasts `fs` divided by `divisor`: zero
/// where there are none, else the exact sum of their squared errors
/// `(p / 100 - o)^2`, as `squared_errors` over `10^(2 * common_exp)`.
pub open spec fn is_brier_score(fs: Seq<Forecast>, divisor: int, r: BrierScore) -> bool {
    if fs.len() == 0 {
        r is Zero
    } else {
        r matches BrierScore::Mean { sum, exponent, divisor: d } && {
            &&& digits_value(sum@) == squared_errors(fs, common_exp(fs), fs.len() as int)
            &&& exponent == 2 * common_exp(fs)
            &&& d == divisor
        }
    }
}

/// The common exponent is at least 0 and at least every forecast's
/// `share_exp`, and no larger than the largest of them and 0.
pub proof fn lemma_common_exp_bounds(fs: Seq<Forecast>)
    ensures
        0 <= common_exp(fs) <= i64::MAX + 2,
        forall|i: int| 0 <= i < fs.len() ==> share_exp(#[trigger] fs[i]) <= common_exp(fs),
    decreases fs.len(),
{
    if fs.len() > 0 {
        lemma_common_exp_bounds(fs.drop_last());
        assert forall|i: int| 0 <= i < fs.len() implies share_exp(#[trigger] fs[i]) <= common_exp(
            fs,
        ) by {
            if i < fs.len() - 1 {
                assert(fs[i] == fs.drop_last()[i]);
            }
        }
    }
}

/// The common exponent of a side's forecasts.
fn common_exponent(fs: &Vec<Forecast>) -> (e: i128)
    ensures
        e == common_exp(fs@),
{
    let mut e: i128 = 0;
    let mut i: usize = 0;
    assert(fs@.take(0) =~= Seq::<Forecast>::empty());
    while i < fs.len()
        invariant
            i <= fs.len(),
            e == common_exp(fs@.take(i as int)),
        decreases fs.len() - i,
    {
        assert(fs@.take(i + 1).drop_last() =~= fs@.take(i as int));
        assert(fs@.take(i + 1).last() == fs@[i as int]);
        let x: i128 = fs[i].probability.scale as i128 + 2;
        if x > e {
            e = x;
        }
        i = i + 1;
    }
    assert(fs@.take(fs.len() as int) =~= fs@);
    e
}

/// The digits of the squared error of one forecast, times `10^(2e)`.
fn squared_error_digits(f: &Forecast, e: i128) -> (r: Vec<u8>)
    requires
        share_exp(*f) <= e,
        0 <= e <= i64::MAX + 2,
    ensures
        is_digits(r@),
        digits_value(r@) == scaled_error(*f, e as int) * scaled_error(*f, e as int),
{
    let mantissa = add_digits(&f.probability.digits, &Vec::new());
    let share: i128 = f.probability.scale as i128 + 2;
    let a = shift_digits(&mantissa, (e - share) as u64);
    let o = f.outcome;
    let o_size: u64 = if o < 0 {
        (-(o as i64)) as u64
    } else {
        o as u64
    };
    let b = shift_digits(&digits_of_u64(o_size), e as u64);
    let same_sign = f.probability.negative == (o < 0);
    let err = if same_sign {
        abs_diff_digits(&a, &b)
    } else {
        add_digits(&a, &b)
    };
    proof {
        let va = digits_value(a@) as int;
        let vb = digits_value(b@) as int;
        let m = digits_value(f.probability.digits@) as int;
        let pa = pow10((e - share) as nat);
        let pb = pow10(e as nat);
        assert(va == m * pa);
        assert(vb == o_size * pb);
        let sa: int = if f.probability.negative {
            -va
        } else {
            va
        };
        let sb: int = if o < 0 {
            -vb
        } else {
            vb
        };
        assert(sa == decimal_mantissa(f.probability) * pa) by (nonlinear_arith)
            requires
                va == m * pa,
                sa == (if f.probability.negative {
                    -va
                } else {
                    va
                }),
                decimal_mantissa(f.probability) == (if f.probability.negative {
                    -m
                } else {
                    m
                }),
        ;
        assert(sb == o * pb) by (nonlinear_arith)
            requires
                vb == o_size * pb,
                sb == (if o < 0 {
                    -vb
                } else {
                    vb
                }),
                o_size == (if o < 0 {
                    -o
                } else {
                    o as int
                }),
        ;
        assert(scaled_error(*f, e as int) == sa - sb);
        let d = digits_value(err@) as int;
        assert(d == sa - sb || d == sb - sa);
        assert(d * d == (sa - sb) * (sa - sb)) by (nonlinear_arith)
            requires
                d == sa - sb || d == sb - sa,
        ;
    }
    mul_digits(&err, &err)
}

/// The exact sum of the squared errors of a side's forecasts, with the
/// exponent at which each error is taken.
fn squared_error_sum(fs: &Vec<Forecast>) -> (r: (Vec<u8>, i128))
    ensures
        r.1 == common_exp(fs@),
        0 <= r.1 <= i64::MAX + 2,
        is_digits(r.0@),
        digits_value(r.0@) == squared_errors(fs@, r.1 as int, fs.len() as int),
{
    let e = common_exponent(fs);
    proof {
        lemma_common_exp_bounds(fs@);
    }
    let mut total: Vec<u8> = Vec::new();
    let mut i: usize = 0;
    while i < fs.len()
        invariant
            i <= fs.len(),
            e == common_exp(fs@),
            0 <= e <= i64::MAX + 2,
            forall|j: int| 0 <= j < fs.len() ==> share_exp(#[trigger] fs@[j]) <= e,
            is_digits(total@),
            digits_value(total@) == squared_errors(fs@, e as int, i as int),
        decreases fs.len() - i,
    {
        assert(share_exp(fs@[i as int]) <= e);
        let sq = squared_error_digits(&fs[i], e);
        total = add_digits(&total, &sq);
        i = i + 1;
    }
    (total, e)
}

/// The Brier scores of a user's resolved human forecasts and of the LLM
/// forecasts that answer them, exactly, for probabilities of any precision:
/// each side's sum of squared errors `(p / 100 - o)^2`, divided by the number
/// of human forecasts (the LLM side too). There must be human forecasts
/// wherever there are LLM ones, as that division has no divisor otherwise.
pub fn compute_brier_scores(human: &Vec<Forecast>, llm: &Vec<Forecast>) -> (r: (
    BrierScore,
    BrierScore,
))
    requires
        llm.len() > 0 ==> human.len() > 0,
    ensures
        is_brier_score(human@, human.len() as int, r.0),
        is_brier_score(llm@, human.len() as int, r.1),
{
    let divisor = human.len() as u64;
    let h = if human.len() == 0 {
        BrierScore::Zero
    } else {
        let (sum, e) = squared_error_sum(human);
        BrierScore::Mean { sum, exponent: (2 * e) as u128, divisor }
    };
    let l = if llm.len() == 0 {
        BrierScore::Zero
    } else {
        let (sum, e) = squared_error_sum(llm);
        BrierScore::Mean { sum, exponent: (2 * e) as u128, divisor }
    };
    (h, l)
}

/// With every probability between 0 and 100 percent and every outcome 0 or 1,
/// every squared error lies between 0 and 1, so the sum of the first `n`
/// lies between 0 and `n` (in units of `10^(-2e)`).
pub proof fn lemma_brier_sum_in_unit_range(fs: Seq<Forecast>, e: int, n: int)
    requires
        0 <= n <= fs.len(),
        e >= 0,
        forall|i: int| 0 <= i < fs.len() ==> 0 <= #[trigger] scaled_share(fs[i], e) <= pow10(e as nat),
        forall|i: int| 0 <= i < fs.len() ==> #[trigger] fs[i].outcome == 0 || fs[i].outcome == 1,
    ensures
        0 <= squared_errors(fs, e, n) <= n * (pow10(e as nat) * pow10(e as nat)),
    decreases n,
{
    if n > 0 {
        lemma_brier_sum_in_unit_range(fs, e, n - 1);
        let u = pow10(e as nat);
        let f = fs[n - 1];
        let s = scaled_share(f, e);
        assert(0 <= s <= u);
        assert(f.outcome == 0 || f.outcome == 1);
        let d = scaled_error(f, e);
        assert(d == s - f.outcome * u);
        assert(-u <= d <= u) by (nonlinear_arith)
            requires
                d == s - f.outcome * u,
                0 <= s <= u,
                f.outcome == 0 || f.outcome == 1,
        ;
        assert(0 <= d * d <= u * u) by (nonlinear_arith)
            requires
                -u <= d <= u,
        ;
        assert((n - 1) * (u * u) + u * u == n * (u * u)) by (nonlinear_arith);
    }
}

/// A forecaster whose every share `p / 100` equals the outcome (100 percent
/// for what happened, 0 percent for what did not) has a squared-error sum of
/// zero.
pub proof fn lemma_perfect_forecasts_score_zero(fs: Seq<Forecast>, e: int, n: int)
    requires
        0 <= n <= fs.len(),
        forall|i: int|
            0 <= i < fs.len() ==> #[trigger] scaled_share(fs[i], e) == fs[i].outcome * pow10(
                e as nat,
            ),
    ensures
        squared_errors(fs, e, n) == 0,
    decreases n,
{
    if n > 0 {
        lemma_perfect_forecasts_score_zero(fs, e, n - 1);
        assert(scaled_share(fs[n - 1], e) == fs[n - 1].outcome * pow10(e as nat));
    }
}

// ---------------------------------------------------------------------------
// Asymmetry of position sizes
// ---------------------------------------------------------------------------

/// A prediction counts as right when its outcome is 1.
pub open spec fn is_right(o: Option<i32>) -> bool {
    o == Some(1i32)
}

/// The scale at which a list of decimals is summed exactly: the largest
/// scale among them, and at least 0.
pub open spec fn common_scale(ps: Seq<Decimal>) -> int
    decreases ps.len(),
{
    if ps.len() == 0 {
        0
    } else {
        let s = common_scale(ps.drop_last());
        if ps.last().scale > s {
            ps.last().scale as int
        } else {
            s
        }
    }
}

/// The common scale is between 0 and `i64::MAX` and at least every scale.
pub proof fn lemma_common_scale_bounds(ps: Seq<Decimal>)
    ensures
        0 <= common_scale(ps) <= i64::MAX,
        forall|i: int| 0 <= i < ps.len() ==> (#[trigger] ps[i]).scale <= common_scale(ps),
    decreases ps.len(),
{
    if ps.len() > 0 {
        lemma_common_scale_bounds(ps.drop_last());
        assert forall|i: int| 0 <= i < ps.len() implies (#[trigger] ps[i]).scale <= common_scale(
            ps,
        ) by {
            if i < ps.len() - 1 {
                assert(ps[i] == ps.drop_last()[i]);
            }
        }
    }
}

/// The common scale of a list of decimals.
fn common_scale_of(ps: &Vec<Decimal>) -> (s: i64)
    ensures
        s == common_scale(ps@),
{
    let mut s: i64 = 0;
    let mut i: usize = 0;
    assert(ps@.take(0) =~= Seq::<Decimal>::empty());
    while i < ps.len()
        invariant
            i <= ps.len(),
            s == common_scale(ps@.take(i as int)),
        decreases ps.len() - i,
    {
        assert(ps@.take(i + 1).drop_last() =~= ps@.take(i as int));
        assert(ps@.take(i + 1).last() == ps@[i as int]);
        if ps[i].scale > s {
            s = ps[i].scale;
        }
        i = i + 1;
    }
    assert(ps@.take(ps.len() as int) =~= ps@);
    s
}

/// A decimal's value times `10^s`, for `s` at least its scale.
pub open spec fn aligned_value(d: Decimal, s: int) -> int {
    decimal_mantissa(d) * pow10((s - d.scale) as nat)
}

/// The sign and proper digits of a decimal's value times `10^s`.
fn aligned_digits(d: &Decimal, s: i64) -> (r: (bool, Vec<u8>))
    requires
        d.scale <= s,
        0 <= s,
    ensures
        is_digits(r.1@),
        signed_value(r.0, r.1@) == aligned_value(*d, s as int),
{
    let mantissa = add_digits(&d.digits, &Vec::new());
    let shift: i128 = s as i128 - d.scale as i128;
    let a = shift_digits(&mantissa, shift as u64);
    proof {
        let m = digits_value(d.digits@) as int;
        let p = pow10((s - d.scale) as nat);
        assert(digits_value(a@) == m * p);
        assert(decimal_mantissa(*d) * p == (if d.negative {
            -(m * p)
        } else {
            m * p
        })) by (nonlinear_arith)
            requires
                decimal_mantissa(*d) == (if d.negative {
                    -m
                } else {
                    m
                }),
        ;
    }
    (d.negative, a)
}

/// The sum of the position sizes of the first `n` predictions on one side
/// (the right ones for `right`, the others otherwise), times `10^s`.
pub open spec fn side_sum(os: Seq<Option<i32>>, pos: Seq<Decimal>, s: int, n: int, right: bool) -> int
    decreases n,
{
    if n <= 0 {
        0
    } else {
        side_sum(os, pos, s, n - 1, right) + if is_right(os[n - 1]) == right {
            aligned_value(pos[n - 1], s)
        } else {
            0
        }
    }
}

/// How many of the first `n` predictions are on one side.
pub open spec fn side_count(os: Seq<Option<i32>>, n: int, right: bool) -> int
    decreases n,
{
    if n <= 0 {
        0
    } else {
        side_count(os, n - 1, right) + if is_right(os[n - 1]) == right {
            1int
        } else {
            0
        }
    }
}

/// The asymmetry ratio's parts: zero where either side is empty or the wrong
/// side's positions sum to zero, else the two sides' exact position sums
/// and counts, the ratio being `(right_sum / right_count) / (wrong_sum /
/// wrong_count)`.
#[derive(Clone, Debug, PartialEq, Eq)]
pub enum Asymmetry {
    Zero,
    Ratio { right_sum: Decimal, right_count: u32, wrong_sum: Decimal, wrong_count: u32 },
}

/// `r` is the asymmetry of the predictions with outcomes `os` and position
/// sizes `pos`, the sums being exact at the common scale of the positions.
pub open spec fn is_asymmetry(os: Seq<Option<i32>>, pos: Seq<Decimal>, r: Asymmetry) -> bool {
    let n = os.len() as int;
    let s = common_scale(pos);
    let rs = side_sum(os, pos, s, n, true);
    let rc = side_count(os, n, true);
    let ws = side_sum(os, pos, s, n, false);
    let wc = side_count(os, n, false);
    if rc == 0 || wc == 0 || ws == 0 {
        r is Zero
    } else {
        r matches Asymmetry::Ratio { right_sum, right_count, wrong_sum, wrong_count } && {
            &&& decimal_mantissa(right_sum) == rs
            &&& right_sum.scale == s
            &&& right_count == rc
            &&& decimal_mantissa(wrong_sum) == ws
            &&& wrong_sum.scale == s
            &&& wrong_count == wc
        }
    }
}

proof fn lemma_side_count_bounds(os: Seq<Option<i32>>, n: int, right: bool)
    requires
        0 <= n <= os.len(),
    ensures
        0 <= side_count(os, n, right) <= n,
    decreases n,
{
    if n > 0 {
        lemma_side_count_bounds(os, n - 1, right);
    }
}

/// The parts of the asymmetry ratio of a user's high-confidence resolved
/// predictions: the position sizes of the right ones against those of the
/// wrong ones, summed exactly whatever their precision. The counts are
/// 32-bit, as the service keeps them.
pub fn asymmetry(outcomes: &Vec<Option<i32>>, positions: &Vec<Decimal>) -> (r: Asymmetry)
    requires
        outcomes.len() == positions.len(),
        outcomes.len() < 0x1_0000_0000,
    ensures
        is_asymmetry(outcomes@, positions@, r),
{
    let s = common_scale_of(positions);
    proof {
        lemma_common_scale_bounds(positions@);
    }
    let mut rn: bool = false;
    let mut rs: Vec<u8> = Vec::new();
    let mut rc: u32 = 0;
    let mut wn: bool = false;
    let mut ws: Vec<u8> = Vec::new();
    let mut wc: u32 = 0;
    let mut i: usize = 0;
    while i < outcomes.len()
        invariant
            outcomes.len() == positions.len(),
            outcomes.len() < 0x1_0000_0000,
            i <= outcomes.len(),
            s == common_scale(positions@),
            0 <= s,
            forall|j: int| 0 <= j < positions.len() ==> (#[trigger] positions@[j]).scale <= s,
            is_digits(rs@),
            is_digits(ws@),
            signed_value(rn, rs@) == side_sum(outcomes@, positions@, s as int, i as int, true),
            rc == side_count(outcomes@, i as int, true),
            signed_value(wn, ws@) == side_sum(outcomes@, positions@, s as int, i as int, false),
            wc == side_count(outcomes@, i as int, false),
        decreases outcomes.len() - i,
    {
        proof {
            lemma_side_count_bounds(outcomes@, i as int, true);
            lemma_side_count_bounds(outcomes@, i as int, false);
        }
        assert(positions@[i as int].scale <= s);
        let (pn, p) = aligned_digits(&positions[i], s);
        if outcomes[i] == Some(1i32) {
            let (n2, s2) = signed_add(rn, &rs, pn, &p);
            rn = n2;
            rs = s2;
            rc = rc + 1;
        } else {
            let (n2, s2) = signed_add(wn, &ws, pn, &p);
            wn = n2;
            ws = s2;
            wc = wc + 1;
        }
        i = i + 1;
    }
    let wrong_zero = is_zero_digits(&ws);
    if rc == 0 || wc == 0 || wrong_zero {
        Asymmetry::Zero
    } else {
        Asymmetry::Ratio {
            right_sum: Decimal { negative: rn, digits: rs, scale: s },
            right_count: rc,
            wrong_sum: Decimal { negative: wn, digits: ws, scale: s },
            wrong_count: wc,
        }
    }
}

/// Whether digits stand for zero.
fn is_zero_digits(a: &Vec<u8>) -> (r: bool)
    requires
        is_digits(a@),
    ensures
        r == (digits_value(a@) == 0),
{
    let mut i: usize = 0;
    while i < a.len()
        invariant
            i <= a.len(),
            is_digits(a@),
            digits_value(a@.take(i as int)) == 0,
            forall|j: int| 0 <= j < i ==> a@[j] == 0,
        decreases a.len() - i,
    {
        proof {
            lemma_take_value_step(a@, i as int);
        }
        if a[i] != 0 {
            proof {
                lemma_value_at_least_digit(a@, i as int);
            }
            return false;
        }
        i = i + 1;
    }
    assert(a@.take(a.len() as int) =~= a@);
    true
}

// ---------------------------------------------------------------------------
// Equity curves
// ---------------------------------------------------------------------------

/// One point of an equity curve: the equal-weight value (one unit per call)
/// and the exact position-weighted value.
#[derive(Clone, Debug, PartialEq, Eq)]
pub struct EquityValue {
    pub equal_weight: i128,
    pub position_weighted: Decimal,
}

/// The equal-weight value after the first `n` calls: 1, plus 1 for each right
/// call (outcome 1), minus 1 for each other.
pub open spec fn equal_weight_after(os: Seq<i32>, n: int) -> int
    decreases n,
{
    if n <= 0 {
        1
    } else {
        equal_weight_after(os, n - 1) + if os[n - 1] == 1 {
            1int
        } else {
            -1int
        }
    }
}

/// The position-weighted value after the first `n` calls, times `10^s`: 1,
/// plus the position of each right call, minus that of each other.
pub open spec fn weighted_after(os: Seq<i32>, pos: Seq<Decimal>, s: int, n: int) -> int
    decreases n,
{
    if n <= 0 {
        pow10(s as nat)
    } else {
        weighted_after(os, pos, s, n - 1) + if os[n - 1] == 1 {
            aligned_value(pos[n - 1], s)
        } else {
            -aligned_value(pos[n - 1], s)
        }
    }
}

proof fn lemma_equal_weight_bounds(os: Seq<i32>, n: int)
    requires
        0 <= n <= os.len(),
    ensures
        1 - n <= equal_weight_after(os, n) <= 1 + n,
    decreases n,
{
    if n > 0 {
        lemma_equal_weight_bounds(os, n - 1);
    }
}

/// The equity curve of a user's resolved calls in submission order: after
/// each call, the equal-weight value and the exact position-weighted value
/// (at the common scale of the positions).
pub fn equity_curve(outcomes: &Vec<i32>, positions: &Vec<Decimal>) -> (r: Vec<EquityValue>)
    requires
        outcomes.len() == positions.len(),
    ensures
        r.len() == outcomes.len(),
        forall|k: int|
            0 <= k < r.len() ==> {
                &&& (#[trigger] r@[k]).equal_weight == equal_weight_after(outcomes@, k + 1)
                &&& decimal_mantissa(r@[k].position_weighted) == weighted_after(
                    outcomes@,
                    positions@,
                    common_scale(positions@),
                    k + 1,
                )
                &&& r@[k].position_weighted.scale == common_scale(positions@)
            },
{
    let s = common_scale_of(positions);
    proof {
        lemma_common_scale_bounds(positions@);
    }
    let mut equal: i128 = 1;
    let mut wn: bool = false;
    let mut wd: Vec<u8> = shift_digits(&digits_of_u64(1), s as u64);
    let mut out: Vec<EquityValue> = Vec::new();
    let mut i: usize = 0;
    assert(1 * pow10(s as nat) == pow10(s as nat));
    while i < outcomes.len()
        invariant
            outcomes.len() == positions.len(),
            i <= outcomes.len(),
            out.len() == i,
            s == common_scale(positions@),
            0 <= s,
            forall|j: int| 0 <= j < positions.len() ==> (#[trigger] positions@[j]).scale <= s,
            equal == equal_weight_after(outcomes@, i as int),
            is_digits(wd@),
            signed_value(wn, wd@) == weighted_after(outcomes@, positions@, s as int, i as int),
            forall|k: int|
                0 <= k < i ==> {
                    &&& (#[trigger] out@[k]).equal_weight == equal_weight_after(outcomes@, k + 1)
                    &&& decimal_mantissa(out@[k].position_weighted) == weighted_after(
                        outcomes@,
                        positions@,
                        s as int,
                        k + 1,
                    )
                    &&& out@[k].position_weighted.scale == s
                },
        decreases outcomes.len() - i,
    {
        proof {
            lemma_equal_weight_bounds(outcomes@, i as int);
        }
        assert(positions@[i as int].scale <= s);
        let (pn, p) = aligned_digits(&positions[i], s);
        let right = outcomes[i] == 1;
        let sign = if right {
            pn
        } else {
            !pn
        };
        assert(signed_value(sign, p@) == if right {
            aligned_value(positions@[i as int], s as int)
        } else {
            -aligned_value(positions@[i as int], s as int)
        });
        let (n2, d2) = signed_add(wn, &wd, sign, &p);
        wn = n2;
        wd = d2;
        if right {
            equal = equal + 1;
        } else {
            equal = equal - 1;
        }
        let point = EquityValue {
            equal_weight: equal,
            position_weighted: Decimal { negative: wn, digits: copy_digits(&wd), scale: s },
        };
        out.push(point);
        i = i + 1;
    }
    out
}

/// The equal-weight value after `n` calls is 1 plus the right calls minus the
/// others.
pub proof fn lemma_equal_weight_counts(os: Seq<i32>, n: int)
    requires
        0 <= n <= os.len(),
    ensures
        equal_weight_after(os, n) == 1 + 2 * os.take(n).filter(|o: i32| o == 1).len() - n,
    decreases n,
{
    let f = |o: i32| o == 1;
    if n > 0 {
        lemma_equal_weight_counts(os, n - 1);
        assert(os.take(n).drop_last() =~= os.take(n - 1));
        assert(os.take(n) =~= os.take(n - 1).push(os[n - 1]));
        os.take(n - 1).lemma_filter_push(os[n - 1], f);
    } else {
        assert(os.take(0) =~= Seq::<i32>::empty());
        reveal(Seq::filter);
        assert(os.take(0).filter(f) =~= Seq::<i32>::empty());
    }
}

} // verus!
