use vstd::prelude::*;

verus! {

/// Floor division brackets its numerator: `b * (a / b) <= a < b * (a / b) + b`.
pub proof fn lemma_div_bounds(a: int, b: int)
    requires
        0 < b,
    ensures
        b * (a / b) <= a,
        a < b * (a / b) + b,
{
    vstd::arithmetic::div_mod::lemma_fundamental_div_mod(a, b);
    vstd::arithmetic::div_mod::lemma_mod_bound(a, b);
}

/// `k <= a / b` whenever `b * k <= a`.
pub proof fn lemma_le_div(a: int, b: int, k: int)
    requires
        0 < b,
        b * k <= a,
    ensures
        k <= a / b,
{
    lemma_div_bounds(a, b);
    let q = a / b;
    assert(k <= q) by (nonlinear_arith)
        requires b * k <= a, a < b * q + b, 0 < b;
}

/// `a / b < k` whenever `a < b * k`.
pub proof fn lemma_div_lt(a: int, b: int, k: int)
    requires
        0 < b,
        a < b * k,
    ensures
        a / b < k,
{
    lemma_div_bounds(a, b);
    let q = a / b;
    assert(q < k) by (nonlinear_arith)
        requires b * q <= a, a < b * k, 0 < b;
}

/// `r` is the integer square root of `n`: the largest integer whose square is at most `n`.
pub open spec fn is_integer_sqrt(n: int, r: int) -> bool {
    &&& 0 <= r
    &&& r * r <= n
    &&& n < (r + 1) * (r + 1)
}

/// One Newton step never falls below the integer square root:
/// if `s * s <= n` and `x > 0` then `(x + n / x) / 2 >= s`.
proof fn lemma_newton_step_stays_above(n: int, x: int, s: int)
    requires
        0 <= n,
        0 < x,
        0 <= s,
        s * s <= n,
    ensures
        (x + n / x) / 2 >= s,
{
    if x < 2 * s {
        // x * (2s - x) = s^2 - (s - x)^2 <= s^2 <= n, hence n / x >= 2s - x
        assert(x * (2 * s - x) <= n) by (nonlinear_arith)
            requires s * s <= n;
        lemma_le_div(n, x, 2 * s - x);
    } else {
        lemma_le_div(n, x, 0);
    }
}

/// Above the integer square root a Newton step strictly decreases:
/// if `n < x * x` then `(x + n / x) / 2 < x`.
proof fn lemma_newton_step_decreases(n: int, x: int)
    requires
        0 <= n,
        0 < x,
        n < x * x,
    ensures
        (x + n / x) / 2 < x,
{
    lemma_div_lt(n, x, x);
}

/// Any square root candidate below the first iterate of the loop is at most `n`.
proof fn lemma_sqrt_at_most_n(n: int, s: int)
    requires
        1 <= n,
        0 <= s,
        s * s <= n,
    ensures
        s <= n,
{
    if s > n {
        assert(s * s > n * 1) by (nonlinear_arith)
            requires s > n, n >= 1;
    }
}

/// The integer square root of a natural number.
pub open spec fn integer_sqrt_spec(n: int) -> int {
    choose|r: int| #[trigger] is_integer_sqrt(n, r)
}

/// `integer_sqrt_spec` is the integer square root.
pub proof fn lemma_integer_sqrt_spec(n: int)
    requires
        0 <= n,
    ensures
        is_integer_sqrt(n, integer_sqrt_spec(n)),
        forall|r: int| #[trigger] is_integer_sqrt(n, r) ==> r == integer_sqrt_spec(n),
{
    lemma_integer_sqrt_exists(n);
    assert forall|r: int| #[trigger] is_integer_sqrt(n, r) implies r == integer_sqrt_spec(n) by {
        lemma_integer_sqrt_unique(n, r, integer_sqrt_spec(n));
    }
}

/// The integer square root of `n`, computed by Newton's method.
pub fn integer_sqrt(n: u128) -> (r: u128)
    requires
        n < u128::MAX,
    ensures
        is_integer_sqrt(n as int, r as int),
        r == integer_sqrt_spec(n as int),
{
    proof {
        lemma_integer_sqrt_spec(n as int);
    }
    if n == 0 {
        assert(is_integer_sqrt(0, 0));
        return 0;
    }
    proof {
        lemma_integer_sqrt_exists(n as int);
    }
    let ghost s: int = choose|s: int| #[trigger] is_integer_sqrt(n as int, s);
    proof {
        lemma_sqrt_at_most_n(n as int, s);
        lemma_sqrt_positive_and_small(n as int, s);
        vstd::arithmetic::div_mod::lemma_div_by_self(n as int);
        lemma_newton_step_stays_above(n as int, n as int, s);
    }
    let mut x = n;
    let mut y = (x + 1) / 2;
    while y < x
        invariant
            0 < n < u128::MAX,
            is_integer_sqrt(n as int, s),
            1 <= s < 0x1_0000_0000_0000_0000,
            s <= x <= n,
            y == (x + n / x) / 2,
            y >= s,
            y < x ==> y <= (n + 1) / 2,
        decreases x,
    {
        x = y;
        proof {
            lemma_newton_step_stays_above(n as int, x as int, s);
            lemma_newton_sum_fits(n as int, x as int, s);
        }
        y = (x + n / x) / 2;
    }
    proof {
        if x > s {
            assert(n < x * x) by (nonlinear_arith)
                requires x >= s + 1, n < (s + 1) * (s + 1), s >= 0;
            lemma_newton_step_decreases(n as int, x as int);
        }
    }
    x
}

/// For positive `n`, its integer square root is positive and below `2^64`.
proof fn lemma_sqrt_positive_and_small(n: int, s: int)
    requires
        1 <= n < 0x1_0000_0000_0000_0000_0000_0000_0000_0000,
        is_integer_sqrt(n, s),
    ensures
        1 <= s < 0x1_0000_0000_0000_0000,
{
    assert(s >= 1) by (nonlinear_arith)
        requires n >= 1, n < (s + 1) * (s + 1), s >= 0;
    assert(s < 0x1_0000_0000_0000_0000) by (nonlinear_arith)
        requires s * s <= n, n < 0x1_0000_0000_0000_0000_0000_0000_0000_0000, s >= 0;
}

/// The sum `x + n / x` computed by a Newton step fits in a `u128` whenever
/// `s <= x <= (n + 1) / 2` for the integer square root `s` of `n`.
proof fn lemma_newton_sum_fits(n: int, x: int, s: int)
    requires
        1 <= n < 0x1_0000_0000_0000_0000_0000_0000_0000_0000 - 1,
        is_integer_sqrt(n, s),
        1 <= s < 0x1_0000_0000_0000_0000,
        s <= x <= (n + 1) / 2,
    ensures
        0 <= n / x,
        x + n / x < 0x1_0000_0000_0000_0000_0000_0000_0000_0000,
{
    lemma_le_div(n, x, 0);
    if x > s {
        assert(n < x * x) by (nonlinear_arith)
            requires x >= s + 1, n < (s + 1) * (s + 1), s >= 0;
        lemma_div_lt(n, x, x);
    } else {
        assert(n < s * (s + 3)) by (nonlinear_arith)
            requires n < (s + 1) * (s + 1), s >= 1;
        lemma_div_lt(n, s, s + 3);
    }
}

/// Every natural number has an integer square root.
pub proof fn lemma_integer_sqrt_exists(n: int)
    requires
        0 <= n,
    ensures
        exists|s: int| #[trigger] is_integer_sqrt(n, s),
    decreases n,
{
    if n == 0 {
        assert(is_integer_sqrt(0, 0));
    } else {
        lemma_integer_sqrt_exists(n - 1);
        let s = choose|s: int| #[trigger] is_integer_sqrt(n - 1, s);
        if n < (s + 1) * (s + 1) {
            assert(is_integer_sqrt(n, s));
        } else {
            assert(n == (s + 1) * (s + 1));
            assert(n < (s + 2) * (s + 2)) by (nonlinear_arith)
                requires n == (s + 1) * (s + 1), s >= 0;
            assert(is_integer_sqrt(n, s + 1));
        }
    }
}

/// The integer square root is unique.
pub proof fn lemma_integer_sqrt_unique(n: int, r1: int, r2: int)
    requires
        is_integer_sqrt(n, r1),
        is_integer_sqrt(n, r2),
    ensures
        r1 == r2,
{
    if r1 < r2 {
        assert((r1 + 1) * (r1 + 1) <= r2 * r2) by (nonlinear_arith)
            requires r1 + 1 <= r2, r1 >= 0;
    } else if r2 < r1 {
        assert((r2 + 1) * (r2 + 1) <= r1 * r1) by (nonlinear_arith)
            requires r2 + 1 <= r1, r2 >= 0;
    }
}

} // verus!
