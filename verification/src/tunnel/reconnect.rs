//! Auto-reconnect policy: whether to retry, and how long to wait.
use vstd::prelude::*;

use crate::clock::jitter_permille;
use crate::model::tunnel_config::ReconnectPolicy;
use crate::natural::{at_most, from_u64, times, value};

verus! {

/// Should another reconnect attempt be made? `attempt` is 1-based (the first
/// retry is attempt 1).
pub open spec fn retry_allowed(policy: ReconnectPolicy, attempt: u32) -> bool {
    policy.enabled && match policy.max_retries {
        None => true,
        Some(max) => attempt <= max,
    }
}

pub fn should_retry(policy: &ReconnectPolicy, attempt: u32) -> (r: bool)
    ensures
        r == retry_allowed(*policy, attempt),
{
    policy.enabled && match policy.max_retries {
        None => true,
        Some(max) => attempt <= max,
    }
}

/// `b` to the power `e`.
pub open spec fn power(b: nat, e: nat) -> nat
    decreases e,
{
    if e == 0 {
        1
    } else {
        b * power(b, (e - 1) as nat)
    }
}

/// `initial · (factor_milli / 1000)^k`, rounded down to whole milliseconds.
pub open spec fn grown_delay(initial: nat, factor_milli: nat, k: nat) -> nat {
    (initial * power(factor_milli, k)) / power(1000, k)
}

/// The exponent used for a (1-based) attempt.
pub open spec fn exponent(attempt: u32) -> nat {
    if attempt == 0 {
        0
    } else {
        (attempt - 1) as nat
    }
}

/// Exponential backoff before jitter: grown from the initial delay, capped at the maximum.
pub open spec fn capped_delay(policy: ReconnectPolicy, attempt: u32) -> nat {
    let raw = grown_delay(
        policy.initial_delay_ms as nat,
        policy.factor_milli as nat,
        exponent(attempt),
    );
    if raw <= policy.max_delay_ms {
        raw
    } else {
        policy.max_delay_ms as nat
    }
}

/// Full jitter within `[delay/2, delay]`: `permille` thousandths of the upper half.
pub open spec fn jittered(delay: nat, permille: nat) -> nat {
    delay * (1000 + permille) / 2000
}

/// The unrounded delay of an attempt is the fraction `delay_num / delay_den`:
/// `initial · factor_milli^k` over `1000^k`.
pub open spec fn delay_num(policy: ReconnectPolicy, attempt: u32) -> nat {
    policy.initial_delay_ms as nat * power(policy.factor_milli as nat, exponent(attempt))
}

pub open spec fn delay_den(attempt: u32) -> nat {
    power(1000, exponent(attempt))
}

/// The delay in milliseconds for an attempt, given the jitter draw: the
/// unrounded delay, capped at the maximum, jittered when the policy asks for
/// it, and only then rounded down to whole milliseconds.
pub open spec fn backoff_ms(policy: ReconnectPolicy, attempt: u32, permille: nat) -> nat {
    let n = delay_num(policy, attempt);
    let d = delay_den(attempt);
    let m = policy.max_delay_ms as nat;
    if m * d <= n {
        if policy.jitter {
            jittered(m, permille)
        } else {
            m
        }
    } else if policy.jitter {
        (n * (1000 + permille)) / (d * 2000)
    } else {
        n / d
    }
}

proof fn lemma_power_positive(b: nat, e: nat)
    requires
        b > 0,
    ensures
        power(b, e) > 0,
    decreases e,
{
    if e > 0 {
        lemma_power_positive(b, (e - 1) as nat);
        assert(b * power(b, (e - 1) as nat) > 0) by (nonlinear_arith)
            requires
                b > 0,
                power(b, (e - 1) as nat) > 0,
        ;
    }
}

proof fn lemma_power_zero_stays(b: nat, k: nat, e: nat)
    requires
        power(b, k) == 0,
        k <= e,
    ensures
        power(b, e) == 0,
    decreases e - k,
{
    if k < e {
        lemma_power_zero_stays(b, k, (e - 1) as nat);
        assert(b * power(b, (e - 1) as nat) == 0) by (nonlinear_arith)
            requires
                power(b, (e - 1) as nat) == 0,
        ;
    }
}

/// Rounding down keeps the order of two fractions: `a/b <= c/d` when
/// `a·d <= c·b`.
proof fn lemma_floor_order(a: nat, b: nat, c: nat, d: nat)
    requires
        b > 0,
        d > 0,
        a * d <= c * b,
    ensures
        a / b <= c / d,
{
    let q = a / b;
    let r = c / d;
    assert(q * b <= a) by (nonlinear_arith)
        requires
            b > 0,
            q == a / b,
    ;
    assert(c < (r + 1) * d) by (nonlinear_arith)
        requires
            d > 0,
            r == c / d,
    ;
    assert(q <= r) by (nonlinear_arith)
        requires
            q * b <= a,
            a * d <= c * b,
            c < (r + 1) * d,
            b > 0,
            d > 0,
    ;
}

/// `n / d == q` when `q·d <= n < (q+1)·d`.
proof fn lemma_floor_is(n: nat, d: nat, q: nat)
    requires
        d > 0,
        q * d <= n,
        n < q * d + d,
    ensures
        n / d == q,
{
    assert((q + 1) * d == q * d + d) by (nonlinear_arith);
    let r = n / d;
    assert(r * d <= n && n < (r + 1) * d) by (nonlinear_arith)
        requires
            d > 0,
            r == n / d,
    ;
    assert(r == q) by (nonlinear_arith)
        requires
            r * d <= n,
            n < (r + 1) * d,
            q * d <= n,
            n < (q + 1) * d,
            d > 0,
    ;
}

/// One growth step: `initial·f^(k+1)` over `1000^(k+1)` compared with the step before.
proof fn lemma_grown_step(initial: nat, f: nat, k: nat)
    ensures
        f >= 1000 ==> grown_delay(initial, f, k) <= grown_delay(initial, f, k + 1),
        f <= 1000 ==> grown_delay(initial, f, k + 1) <= grown_delay(initial, f, k),
{
    let n = initial * power(f, k);
    let d = power(1000, k);
    lemma_power_positive(1000, k);
    assert(power(f, k + 1) == f * power(f, k));
    assert(power(1000, k + 1) == 1000 * d);
    assert(initial * power(f, k + 1) == n * f) by (nonlinear_arith)
        requires
            power(f, k + 1) == f * power(f, k),
            n == initial * power(f, k),
    ;
    assert(d * 1000 > 0);
    if f >= 1000 {
        assert(n * (1000 * d) <= (n * f) * d) by (nonlinear_arith)
            requires
                f >= 1000,
        ;
        lemma_floor_order(n, d, n * f, 1000 * d);
    }
    if f <= 1000 {
        assert((n * f) * d <= n * (1000 * d)) by (nonlinear_arith)
            requires
                f <= 1000,
        ;
        lemma_floor_order(n * f, 1000 * d, n, d);
    }
}

/// With a factor of at least 1, the delay never shrinks from step to step.
proof fn lemma_grown_monotone(initial: nat, f: nat, k: nat, m: nat)
    requires
        f >= 1000,
        k <= m,
    ensures
        grown_delay(initial, f, k) <= grown_delay(initial, f, m),
    decreases m - k,
{
    if k < m {
        lemma_grown_monotone(initial, f, k, (m - 1) as nat);
        lemma_grown_step(initial, f, (m - 1) as nat);
    }
}

/// `(a·b)^k == a^k · b^k`.
proof fn lemma_power_product(a: nat, b: nat, k: nat)
    ensures
        power(a * b, k) == power(a, k) * power(b, k),
    decreases k,
{
    if k > 0 {
        lemma_power_product(a, b, (k - 1) as nat);
        let pa = power(a, (k - 1) as nat);
        let pb = power(b, (k - 1) as nat);
        assert(power(a * b, k) == (a * b) * power(a * b, (k - 1) as nat));
        assert(power(a, k) == a * pa);
        assert(power(b, k) == b * pb);
        assert((a * b) * (pa * pb) == (a * pa) * (b * pb)) by (nonlinear_arith);
        assert(power(a * b, k) == power(a, k) * power(b, k));
    } else {
        assert(power(a * b, 0) == 1 && power(a, 0) == 1 && power(b, 0) == 1);
    }
}

/// `initial·f^k · 1000^m` against `initial·f^m · 1000^k`: with a factor of
/// at least 1 the unrounded delay never shrinks.
proof fn lemma_ratio_up(initial: nat, f: nat, k: nat, m: nat)
    requires
        f >= 1000,
        k <= m,
    ensures
        (initial * power(f, k)) * power(1000, m) <= (initial * power(f, m)) * power(1000, k),
    decreases m - k,
{
    if k < m {
        let j = (m - 1) as nat;
        lemma_ratio_up(initial, f, k, j);
        let nk = initial * power(f, k);
        let nj = initial * power(f, j);
        let dk = power(1000, k);
        let dj = power(1000, j);
        assert(power(f, m) == f * power(f, j));
        assert(power(1000, m) == 1000 * dj);
        assert(initial * power(f, m) == f * nj) by (nonlinear_arith)
            requires
                power(f, m) == f * power(f, j),
                nj == initial * power(f, j),
        ;
        assert(nk * (1000 * dj) <= (f * nj) * dk) by (nonlinear_arith)
            requires
                nk * dj <= nj * dk,
                f >= 1000,
        ;
    }
}

/// With a factor of at most 1 the unrounded delay never grows.
proof fn lemma_ratio_down(initial: nat, f: nat, k: nat, m: nat)
    requires
        f <= 1000,
        k <= m,
    ensures
        (initial * power(f, m)) * power(1000, k) <= (initial * power(f, k)) * power(1000, m),
    decreases m - k,
{
    if k < m {
        let j = (m - 1) as nat;
        lemma_ratio_down(initial, f, k, j);
        let nk = initial * power(f, k);
        let nj = initial * power(f, j);
        let dk = power(1000, k);
        let dj = power(1000, j);
        assert(power(f, m) == f * power(f, j));
        assert(power(1000, m) == 1000 * dj);
        assert(initial * power(f, m) == f * nj) by (nonlinear_arith)
            requires
                power(f, m) == f * power(f, j),
                nj == initial * power(f, j),
        ;
        assert((f * nj) * dk <= nk * (1000 * dj)) by (nonlinear_arith)
            requires
                nj * dk <= nk * dj,
                f <= 1000,
        ;
    }
}

/// Two fractions of equal value give the same capped, rounded and jittered results.
proof fn lemma_same_ratio(n1: nat, d1: nat, n2: nat, d2: nat, m: nat, c: nat)
    requires
        d1 > 0,
        d2 > 0,
        n1 * d2 == n2 * d1,
    ensures
        (m * d1 <= n1) == (m * d2 <= n2),
        n1 / d1 == n2 / d2,
        (n1 * c) / (d1 * 2000) == (n2 * c) / (d2 * 2000),
{
    assert((m * d1 <= n1) == (m * d2 <= n2)) by (nonlinear_arith)
        requires
            d1 > 0,
            d2 > 0,
            n1 * d2 == n2 * d1,
    ;
    lemma_floor_order(n1, d1, n2, d2);
    lemma_floor_order(n2, d2, n1, d1);
    assert((n1 * c) * (d2 * 2000) == (n2 * c) * (d1 * 2000)) by (nonlinear_arith)
        requires
            n1 * d2 == n2 * d1,
    ;
    assert(d1 * 2000 > 0 && d2 * 2000 > 0);
    lemma_floor_order(n1 * c, d1 * 2000, n2 * c, d2 * 2000);
    lemma_floor_order(n2 * c, d2 * 2000, n1 * c, d1 * 2000);
}

/// `value(num) / value(den)` rounded down, known to be below `bound`.
fn quotient_below(num: &Vec<u32>, den: &Vec<u32>, bound: u64) -> (q: u64)
    requires
        value(den@) > 0,
        value(num@) < bound * value(den@),
    ensures
        q == value(num@) / value(den@),
{
    let ghost n = value(num@);
    let ghost d = value(den@);
    let mut lo: u64 = 0;
    let mut hi: u64 = bound;
    assert(0 < bound) by (nonlinear_arith)
        requires
            n < bound * d,
    ;
    while hi - lo > 1
        invariant
            lo < hi <= bound,
            value(num@) == n,
            value(den@) == d,
            d > 0,
            lo * d <= n,
            n < hi * d,
        decreases hi - lo,
    {
        let mid = lo + (hi - lo) / 2;
        let scaled = times(den, mid);
        assert(value(scaled@) == mid * d) by (nonlinear_arith)
            requires
                value(scaled@) == d * mid,
        ;
        if at_most(&scaled, num) {
            lo = mid;
        } else {
            hi = mid;
        }
    }
    proof {
        assert(n < (lo as nat) * d + d) by (nonlinear_arith)
            requires
                hi == lo + 1,
                n < hi * d,
        ;
        lemma_floor_is(n, d, lo as nat);
    }
    lo
}

/// The result for a delay that reaches the cap.
fn at_cap(policy: &ReconnectPolicy, permille: u32) -> (r: u64)
    requires
        permille < 1000,
    ensures
        r == (if policy.jitter {
            jittered(policy.max_delay_ms as nat, permille as nat)
        } else {
            policy.max_delay_ms as nat
        }),
{
    let m = policy.max_delay_ms as u64;
    if policy.jitter {
        assert(m * (1000 + permille) <= u32::MAX * 2000) by (nonlinear_arith)
            requires
                m <= u32::MAX,
                permille < 1000,
        ;
        m * (1000 + permille as u64) / 2000
    } else {
        m
    }
}

/// Exponential backoff delay in milliseconds for the given (1-based) attempt,
/// capped at `max_delay_ms`, with the jitter draw given as thousandths: the
/// exact delay is capped and jittered before it is rounded down once.
pub fn backoff_delay_with(policy: &ReconnectPolicy, attempt: u32, permille: u32) -> (r: u64)
    requires
        permille < 1000,
    ensures
        r == backoff_ms(*policy, attempt, permille as nat),
{
    let e: u32 = if attempt == 0 {
        0
    } else {
        attempt - 1
    };
    let cap = policy.max_delay_ms as u64;
    let f = policy.factor_milli as u64;
    let ghost initial = policy.initial_delay_ms as nat;
    let ghost fv = f as nat;
    let ghost ne = delay_num(*policy, attempt);
    let ghost de = delay_den(attempt);
    let mut num = from_u64(policy.initial_delay_ms as u64);
    let mut den = from_u64(1);
    let zero = from_u64(0);
    let mut k: u32 = 0;
    proof {
        assert(power(fv, 0) == 1);
        assert(power(1000, 0) == 1);
        lemma_power_positive(1000, e as nat);
    }
    while k < e
        invariant
            k <= e,
            e == exponent(attempt),
            permille < 1000,
            fv == f,
            f == policy.factor_milli,
            cap == policy.max_delay_ms,
            initial == policy.initial_delay_ms,
            ne == initial * power(fv, e as nat),
            de == power(1000, e as nat),
            de > 0,
            value(zero@) == 0,
            value(den@) > 0,
            value(num@) == initial * power(fv, k as nat),
            value(den@) == power(1000, k as nat),
        ensures
            value(den@) > 0,
            value(num@) * de == ne * value(den@),
            e == exponent(attempt),
            permille < 1000,
            cap == policy.max_delay_ms,
            ne == delay_num(*policy, attempt),
            de == delay_den(attempt),
            de > 0,
        decreases e - k,
    {
        let ghost n = value(num@);
        let ghost d = value(den@);
        if f >= 1000 {
            let capped = times(&den, cap);
            if at_most(&capped, &num) {
                proof {
                    lemma_ratio_up(initial, fv, k as nat, e as nat);
                    assert(cap * de <= ne) by (nonlinear_arith)
                        requires
                            d * cap <= n,
                            n * de <= ne * d,
                            d > 0,
                    ;
                }
                return at_cap(policy, permille);
            }
        }
        if f == 1000 {
            proof {
                lemma_ratio_up(initial, fv, k as nat, e as nat);
                lemma_ratio_down(initial, fv, k as nat, e as nat);
            }
            break;
        }
        if at_most(&num, &zero) {
            proof {
                if initial != 0 {
                    assert(power(fv, k as nat) == 0) by (nonlinear_arith)
                        requires
                            initial * power(fv, k as nat) == 0,
                            initial != 0,
                    ;
                    lemma_power_zero_stays(fv, k as nat, e as nat);
                }
                assert(ne == 0) by (nonlinear_arith)
                    requires
                        initial == 0 || power(fv, e as nat) == 0,
                        ne == initial * power(fv, e as nat),
                ;
                assert(n == 0);
                assert(n * de == ne * d) by (nonlinear_arith)
                    requires
                        n == 0,
                        ne == 0,
                ;
            }
            break;
        }
        if f < 1000 && !at_most(&den, &num) {
            proof {
                lemma_ratio_down(initial, fv, k as nat, e as nat);
                assert(n == initial * power(fv, k as nat));
                assert(d == power(1000, k as nat));
                assert(ne * d <= n * de);
                assert(n < d);
                assert(ne < de) by (nonlinear_arith)
                    requires
                        ne * d <= n * de,
                        n < d,
                        d > 0,
                        de > 0,
                ;
                let c = 1000 + permille as nat;
                if (cap as nat) * de <= ne {
                    assert(cap == 0) by (nonlinear_arith)
                        requires
                            cap * de <= ne,
                            ne < de,
                    ;
                    assert(jittered(0, permille as nat) == 0);
                } else {
                    lemma_floor_is(ne, de, 0);
                    assert(ne * c < de * 2000) by (nonlinear_arith)
                        requires
                            ne < de,
                            c < 2000,
                    ;
                    lemma_floor_is(ne * c, de * 2000, 0);
                }
            }
            return 0;
        }
        let next_num = times(&num, f);
        let next_den = times(&den, 1000);
        proof {
            lemma_power_positive(1000, (k + 1) as nat);
            assert(power(fv, (k + 1) as nat) == fv * power(fv, k as nat));
            assert(power(1000, (k + 1) as nat) == 1000 * power(1000, k as nat));
            assert(initial * power(fv, k as nat) * fv == initial * (fv * power(fv, k as nat)))
                by (nonlinear_arith);
        }
        num = next_num;
        den = next_den;
        k = k + 1;
    }
    let ghost n = value(num@);
    let ghost d = value(den@);
    let c = 1000 + permille as u64;
    proof {
        lemma_same_ratio(n, d, ne, de, cap as nat, c as nat);
    }
    let capped = times(&den, cap);
    if at_most(&capped, &num) {
        proof {
            assert(cap * d <= n) by (nonlinear_arith)
                requires
                    value(capped@) == d * cap,
                    value(capped@) <= n,
            ;
        }
        return at_cap(policy, permille);
    }
    assert(n < cap * d) by (nonlinear_arith)
        requires
            value(capped@) == d * cap,
            value(capped@) > n,
    ;
    if !policy.jitter {
        return quotient_below(&num, &den, cap);
    }
    let scaled_num = times(&num, c);
    let scaled_den = times(&den, 2000);
    assert(value(scaled_num@) < cap * value(scaled_den@)) by (nonlinear_arith)
        requires
            value(scaled_num@) == n * c,
            value(scaled_den@) == d * 2000,
            n < cap * d,
            c < 2000,
    ;
    quotient_below(&scaled_num, &scaled_den, cap)
}

/// Exponential backoff delay in milliseconds for the given (1-based) attempt,
/// capped at `max_delay_ms` and, when the policy asks for it, jittered within
/// `[delay/2, delay]` by a draw from the clock.
pub fn backoff_delay(policy: &ReconnectPolicy, attempt: u32) -> (r: u64)
    ensures
        exists|permille: nat| permille < 1000 && r == backoff_ms(*policy, attempt, permille),
{
    let permille = if policy.jitter {
        jitter_permille()
    } else {
        0
    };
    backoff_delay_with(policy, attempt, permille)
}

/// With reconnect disabled, no attempt is ever retried.
pub proof fn law_never_retries_when_disabled(policy: ReconnectPolicy, attempt: u32)
    requires
        !policy.enabled,
    ensures
        !retry_allowed(policy, attempt),
{
}

/// With reconnect enabled and no retry limit, every attempt is retried.
pub proof fn law_retries_forever_when_unlimited(policy: ReconnectPolicy, attempt: u32)
    requires
        policy.enabled,
        policy.max_retries is None,
    ensures
        retry_allowed(policy, attempt),
{
}

/// With a limit of `max` retries, attempts `1..=max` are retried and no later one.
pub proof fn law_stops_after_max_retries(policy: ReconnectPolicy, max: u32, attempt: u32)
    requires
        policy.enabled,
        policy.max_retries == Some(max),
    ensures
        retry_allowed(policy, attempt) <==> attempt <= max,
{
}

/// With an integer factor `c` (a `factor_milli` of `1000 * c`), the delay
/// before the cap is exactly `initial * c^k`: the growth is exponential.
pub proof fn law_integer_factor_grows_exponentially(initial: nat, c: nat, k: nat)
    ensures
        grown_delay(initial, 1000 * c, k) == initial * power(c, k),
{
    lemma_power_product(1000, c, k);
    lemma_power_positive(1000, k);
    let d = power(1000, k);
    let q = initial * power(c, k);
    assert(initial * (d * power(c, k)) == q * d) by (nonlinear_arith)
        requires
            q == initial * power(c, k),
    ;
    lemma_floor_is(q * d, d, q);
}

/// A quotient below a bound: `n / d < m` when `n < m·d`.
proof fn lemma_quotient_below(n: nat, d: nat, m: nat)
    requires
        d > 0,
        n < m * d,
    ensures
        n / d < m,
{
    let q = n / d;
    assert(q * d <= n) by (nonlinear_arith)
        requires
            d > 0,
            q == n / d,
    ;
    assert(q < m) by (nonlinear_arith)
        requires
            q * d <= n,
            n < m * d,
            d > 0,
    ;
}

/// Without jitter, the delay is the grown delay rounded down and capped.
proof fn lemma_plain_backoff(policy: ReconnectPolicy, attempt: u32, permille: nat)
    requires
        !policy.jitter,
    ensures
        backoff_ms(policy, attempt, permille) == capped_delay(policy, attempt),
{
    let n = delay_num(policy, attempt);
    let d = delay_den(attempt);
    let m = policy.max_delay_ms as nat;
    lemma_power_positive(1000, exponent(attempt));
    assert(n / d == grown_delay(
        policy.initial_delay_ms as nat,
        policy.factor_milli as nat,
        exponent(attempt),
    ));
    if m * d <= n {
        assert(m * d <= n * 1);
        lemma_floor_order(m, 1, n, d);
        assert(m / 1 == m);
    } else {
        lemma_quotient_below(n, d, m);
    }
}

/// The backoff delay never exceeds the policy's maximum, jittered or not.
pub proof fn law_backoff_within_cap(policy: ReconnectPolicy, attempt: u32, permille: nat)
    requires
        permille < 1000,
    ensures
        backoff_ms(policy, attempt, permille) <= policy.max_delay_ms,
{
    let n = delay_num(policy, attempt);
    let d = delay_den(attempt);
    let m = policy.max_delay_ms as nat;
    lemma_power_positive(1000, exponent(attempt));
    if m * d <= n {
        law_jitter_within_upper_half(m, permille);
    } else if policy.jitter {
        let c = 1000 + permille;
        assert(n * c < m * (d * 2000)) by (nonlinear_arith)
            requires
                n < m * d,
                c < 2000,
        ;
        lemma_quotient_below(n * c, d * 2000, m);
    } else {
        lemma_quotient_below(n, d, m);
    }
}

/// A jittered delay lies within the upper half of the delay the policy
/// would wait without jitter.
pub proof fn law_jittered_backoff_in_upper_half(policy: ReconnectPolicy, attempt: u32, permille: nat)
    requires
        policy.jitter,
        permille < 1000,
    ensures
        capped_delay(policy, attempt) / 2 <= backoff_ms(policy, attempt, permille),
        backoff_ms(policy, attempt, permille) <= capped_delay(policy, attempt),
{
    let plain = ReconnectPolicy { jitter: false, ..policy };
    lemma_plain_backoff(plain, attempt, 0);
    let n = delay_num(policy, attempt);
    let d = delay_den(attempt);
    let m = policy.max_delay_ms as nat;
    let q = capped_delay(policy, attempt);
    lemma_power_positive(1000, exponent(attempt));
    if m * d <= n {
        law_jitter_within_upper_half(m, permille);
    } else {
        let c = 1000 + permille;
        assert(q == n / d);
        assert(q * d <= n) by (nonlinear_arith)
            requires
                d > 0,
                q == n / d,
        ;
        assert((q * c) * (d * 2000) <= (n * c) * 2000) by (nonlinear_arith)
            requires
                q * d <= n,
        ;
        lemma_floor_order(q * c, 2000, n * c, d * 2000);
        law_jitter_within_upper_half(q, permille);
        assert((n * c) * d <= n * (d * 2000)) by (nonlinear_arith)
            requires
                c < 2000,
        ;
        lemma_floor_order(n * c, d * 2000, n, d);
    }
}

/// Full jitter stays within `[delay/2, delay]`.
pub proof fn law_jitter_within_upper_half(delay: nat, permille: nat)
    requires
        permille < 1000,
    ensures
        delay / 2 <= jittered(delay, permille) <= delay,
{
    assert(delay * 1000 <= delay * (1000 + permille) <= delay * 2000) by (nonlinear_arith)
        requires
            permille < 1000,
    ;
    assert(delay * 1000 / 2000 == delay / 2) by (nonlinear_arith);
    assert(delay * 2000 / 2000 == delay) by (nonlinear_arith);
    assert(delay * 1000 / 2000 <= delay * (1000 + permille) / 2000) by (nonlinear_arith)
        requires
            delay * 1000 <= delay * (1000 + permille),
    ;
    assert(delay * (1000 + permille) / 2000 <= delay * 2000 / 2000) by (nonlinear_arith)
        requires
            delay * (1000 + permille) <= delay * 2000,
    ;
}

/// Without jitter and with a factor of at least 1, a later attempt never
/// waits less than an earlier one.
pub proof fn law_backoff_never_shrinks(policy: ReconnectPolicy, a: u32, b: u32)
    requires
        !policy.jitter,
        policy.factor_milli >= 1000,
        a <= b,
    ensures
        backoff_ms(policy, a, 0) <= backoff_ms(policy, b, 0),
{
    lemma_plain_backoff(policy, a, 0);
    lemma_plain_backoff(policy, b, 0);
    lemma_grown_monotone(
        policy.initial_delay_ms as nat,
        policy.factor_milli as nat,
        exponent(a),
        exponent(b),
    );
}

/// Once the delay has reached the cap, every later attempt waits the cap.
pub proof fn law_backoff_stays_capped(policy: ReconnectPolicy, a: u32, b: u32)
    requires
        !policy.jitter,
        policy.factor_milli >= 1000,
        a <= b,
        backoff_ms(policy, a, 0) == policy.max_delay_ms,
    ensures
        backoff_ms(policy, b, 0) == policy.max_delay_ms,
{
    law_backoff_never_shrinks(policy, a, b);
    law_backoff_within_cap(policy, b, 0);
}

} // verus!
