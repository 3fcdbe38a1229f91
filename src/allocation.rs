//! The allocation rule: from one machine's usage, its declared target and
//! the global totals, decide the new target and whether to send a command.
use vstd::prelude::*;

verus! {

/// Minimum time between two grow-back adjustments of one machine.
pub const COOLDOWN_MS: u64 = 300_000;

/// Outcome of the allocation rule for one machine in one cycle.
#[derive(Clone, Copy, Debug, PartialEq, Eq, Structural)]
pub struct Decision {
    /// The allocation, in MiB, that an adjustment would request.
    pub new_target_mb: u64,
    /// Whether an adjustment command is to be sent.
    pub adjust: bool,
}

/// The share of the global excess that a machine using `actual` MiB gives up.
pub open spec fn shrink_share(actual: int, total_actual: int, total_target: int) -> int {
    ((total_actual - total_target) * actual) / total_actual
}

/// The allocation a machine is shrunk to while the budget is exceeded.
pub open spec fn shrink_candidate(actual: int, total_actual: int, total_target: int) -> int {
    actual - shrink_share(actual, total_actual, total_target)
}

/// The rule itself, in its order of precedence.
pub open spec fn decision_of(
    actual: u64,
    declared: u64,
    total_actual: u64,
    total_target: u64,
    elapsed_ms: u64,
) -> Decision {
    if total_actual > total_target {
        let c = shrink_candidate(actual as int, total_actual as int, total_target as int);
        Decision { new_target_mb: c as u64, adjust: c < declared }
    } else if actual < declared && elapsed_ms > COOLDOWN_MS {
        Decision { new_target_mb: declared, adjust: true }
    } else {
        Decision { new_target_mb: actual, adjust: false }
    }
}

proof fn lemma_share_bounded(excess: int, actual: int, total: int)
    requires
        0 <= excess <= total,
        0 <= actual,
        0 < total,
    ensures
        0 <= (excess * actual) / total <= actual,
{
    assert(excess * actual <= total * actual) by (nonlinear_arith)
        requires
            0 <= excess <= total,
            0 <= actual,
    ;
    assert(0 <= excess * actual) by (nonlinear_arith)
        requires
            0 <= excess,
            0 <= actual,
    ;
    vstd::arithmetic::div_mod::lemma_div_is_ordered(excess * actual, total * actual, total);
    vstd::arithmetic::div_mod::lemma_div_multiples_vanish(actual, total);
    vstd::arithmetic::div_mod::lemma_div_pos_is_pos(excess * actual, total);
}

/// Decides the new target of one machine.
///
/// While the global usage exceeds the global target, the machine gives up
/// a share of the excess proportional to its usage, and a command is sent
/// only if that takes it below its declared target. Otherwise a machine
/// below its declared target grows back to it once the cooldown has passed.
/// Otherwise nothing is sent.
pub fn decide(
    actual_mb: u64,
    declared_target_mb: u64,
    total_actual_mb: u64,
    total_target_mb: u64,
    elapsed_ms: u64,
) -> (d: Decision)
    ensures
        d == decision_of(actual_mb, declared_target_mb, total_actual_mb, total_target_mb, elapsed_ms),
        0 <= d.new_target_mb <= if actual_mb < declared_target_mb { declared_target_mb } else { actual_mb },
{
    if total_actual_mb > total_target_mb {
        let excess: u64 = total_actual_mb - total_target_mb;
        proof {
            lemma_share_bounded(excess as int, actual_mb as int, total_actual_mb as int);
            assert((excess as int) * (actual_mb as int) <= 0xffff_ffff_ffff_ffffu64 as int * 0xffff_ffff_ffff_ffffu64 as int) by (nonlinear_arith)
                requires
                    excess <= 0xffff_ffff_ffff_ffffu64,
                    actual_mb <= 0xffff_ffff_ffff_ffffu64,
            ;
        }
        let product: u128 = (excess as u128) * (actual_mb as u128);
        let share: u128 = product / (total_actual_mb as u128);
        let candidate: u64 = actual_mb - (share as u64);
        Decision { new_target_mb: candidate, adjust: candidate < declared_target_mb }
    } else if actual_mb < declared_target_mb && elapsed_ms > COOLDOWN_MS {
        Decision { new_target_mb: declared_target_mb, adjust: true }
    } else {
        Decision { new_target_mb: actual_mb, adjust: false }
    }
}

/// Sum of a sequence of allocations, in MiB.
pub open spec fn sum_mb(s: Seq<u64>) -> int
    decreases s.len(),
{
    if s.len() == 0 {
        0
    } else {
        sum_mb(s.drop_last()) + s.last()
    }
}

/// Sum of the shares that the machines using `s` give up.
pub open spec fn sum_shares(s: Seq<u64>, total_actual: int, total_target: int) -> int
    decreases s.len(),
{
    if s.len() == 0 {
        0
    } else {
        sum_shares(s.drop_last(), total_actual, total_target) + shrink_share(
            s.last() as int,
            total_actual,
            total_target,
        )
    }
}

proof fn lemma_share_floor(excess: int, actual: int, total: int)
    requires
        0 <= excess,
        0 <= actual,
        0 < total,
    ensures
        ((excess * actual) / total) * total <= excess * actual,
        excess * actual <= ((excess * actual) / total) * total + total - 1,
{
    vstd::arithmetic::div_mod::lemma_fundamental_div_mod(excess * actual, total);
    vstd::arithmetic::div_mod::lemma_mod_bound(excess * actual, total);
    vstd::arithmetic::mul::lemma_mul_is_commutative(total, (excess * actual) / total);
}

proof fn lemma_sum_shares_bounds(s: Seq<u64>, total_actual: int, total_target: int)
    requires
        0 <= total_target < total_actual,
    ensures
        sum_shares(s, total_actual, total_target) * total_actual
            <= (total_actual - total_target) * sum_mb(s),
        (total_actual - total_target) * sum_mb(s)
            <= sum_shares(s, total_actual, total_target) * total_actual + s.len() * (total_actual - 1),
    decreases s.len(),
{
    if s.len() > 0 {
        let p = s.drop_last();
        let a = s.last() as int;
        let e = total_actual - total_target;
        let t = total_actual;
        lemma_sum_shares_bounds(p, total_actual, total_target);
        lemma_share_floor(e, a, t);
        let sp = sum_shares(p, t, total_target);
        let sh = (e * a) / t;
        assert(sum_shares(s, t, total_target) == sp + sh);
        assert(sum_mb(s) == sum_mb(p) + a);
        assert((sp + sh) * t == sp * t + sh * t) by (nonlinear_arith);
        assert(e * (sum_mb(p) + a) == e * sum_mb(p) + e * a) by (nonlinear_arith);
        assert(s.len() * (t - 1) == p.len() * (t - 1) + (t - 1)) by (nonlinear_arith)
            requires
                s.len() == p.len() + 1,
        ;
    }
}

/// Proportional shrink: while the global usage `sum_mb(actuals)` exceeds the
/// global target, each machine's candidate is its usage less its share
/// `excess * actual / total_actual`, and the shares of all machines add up to
/// the excess, short of it by less than one MiB per machine.
pub proof fn law_proportional_shrink(actuals: Seq<u64>, total_target: u64)
    requires
        total_target < sum_mb(actuals) <= u64::MAX,
    ensures
        forall|i: int, declared: u64, elapsed_ms: u64|
            0 <= i < actuals.len() ==> #[trigger] decision_of(
                actuals[i],
                declared,
                sum_mb(actuals) as u64,
                total_target,
                elapsed_ms,
            ).new_target_mb == actuals[i] - (sum_mb(actuals) - total_target) * actuals[i]
                / sum_mb(actuals),
        sum_shares(actuals, sum_mb(actuals), total_target as int) <= sum_mb(actuals) - total_target,
        sum_shares(actuals, sum_mb(actuals), total_target as int) > sum_mb(actuals) - total_target
            - actuals.len(),
{
    let t = sum_mb(actuals);
    let e = t - total_target;
    let n = actuals.len() as int;
    let ss = sum_shares(actuals, t, total_target as int);
    lemma_sum_shares_bounds(actuals, t, total_target as int);
    assert forall|i: int, declared: u64, elapsed_ms: u64|
        0 <= i < actuals.len() implies #[trigger] decision_of(
            actuals[i],
            declared,
            t as u64,
            total_target,
            elapsed_ms,
        ).new_target_mb == actuals[i] - e * actuals[i] / t by {
        lemma_share_bounded(e, actuals[i] as int, t);
    }
    assert(ss <= e) by (nonlinear_arith)
        requires
            ss * t <= e * t,
            t > 0,
    ;
    assert(n > 0) by {
        if n == 0 {
            assert(sum_mb(actuals) == 0);
        }
    }
    assert(ss > e - n) by (nonlinear_arith)
        requires
            e * t <= ss * t + n * (t - 1),
            t > 0,
            n > 0,
    ;
}

/// A shrink candidate at or above the declared target sends no command.
pub proof fn law_shrink_suppressed(
    actual: u64,
    declared: u64,
    total_actual: u64,
    total_target: u64,
    elapsed_ms: u64,
)
    requires
        total_actual > total_target,
        shrink_candidate(actual as int, total_actual as int, total_target as int) >= declared,
    ensures
        !decision_of(actual, declared, total_actual, total_target, elapsed_ms).adjust,
{
}

/// Below its declared target, a machine is not grown back before the
/// cooldown has passed since its last adjustment.
pub proof fn law_cooldown_holds_grow_back(
    actual: u64,
    declared: u64,
    total_actual: u64,
    total_target: u64,
    elapsed_ms: u64,
)
    requires
        actual < declared,
        total_actual <= total_target,
    ensures
        decision_of(actual, declared, total_actual, total_target, elapsed_ms).adjust
            <==> elapsed_ms > COOLDOWN_MS,
        decision_of(actual, declared, total_actual, total_target, elapsed_ms).adjust
            ==> decision_of(actual, declared, total_actual, total_target, elapsed_ms).new_target_mb
            == declared,
{
}

/// Within budget and at or above its declared target, a machine gets no
/// command, and its recorded target is its usage.
pub proof fn law_steady_state(
    actual: u64,
    declared: u64,
    total_actual: u64,
    total_target: u64,
    elapsed_ms: u64,
)
    requires
        total_actual <= total_target,
        actual >= declared,
    ensures
        decision_of(actual, declared, total_actual, total_target, elapsed_ms) == (Decision {
            new_target_mb: actual,
            adjust: false,
        }),
{
}

} // verus!
