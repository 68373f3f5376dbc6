use vstd::prelude::*;

verus! {

/// Factor by which a vector is blown up before its length is taken, so that the
/// integer square root of the squared length is exact to about one part in four million.
pub const DIRECTION_SCALE: u64 = 4194304;

/// Largest magnitude of a coordinate that `scaled_direction` accepts.
pub const COORD_MAX: i64 = 1099511627776;

/// Largest target length that `scaled_direction` accepts.
pub const LENGTH_MAX: u64 = 4194304;

/// `r` is the integer square root of `n`, rounded down.
pub open spec fn is_floor_sqrt(n: nat, r: nat) -> bool {
    r * r <= n && n < (r + 1) * (r + 1)
}

/// The integer square root, rounded down.
pub open spec fn floor_sqrt(n: nat) -> nat
    decreases n,
{
    if n == 0 {
        0
    } else {
        let s = 2 * floor_sqrt(n / 4);
        if (s + 1) * (s + 1) <= n {
            (s + 1) as nat
        } else {
            s
        }
    }
}

proof fn lemma_floor_sqrt_step(n: nat, r0: nat)
    by (nonlinear_arith)
    requires
        n > 0,
        r0 * r0 <= n / 4,
        n / 4 < (r0 + 1) * (r0 + 1),
    ensures
        (2 * r0) * (2 * r0) <= n,
        n < (2 * r0 + 2) * (2 * r0 + 2),
{
}

pub proof fn lemma_floor_sqrt(n: nat)
    ensures
        is_floor_sqrt(n, floor_sqrt(n)),
    decreases n,
{
    if n > 0 {
        let r0 = floor_sqrt((n / 4) as nat);
        lemma_floor_sqrt((n / 4) as nat);
        lemma_floor_sqrt_step(n, r0);
        let s = 2 * r0;
        assert(floor_sqrt(n) == if (s + 1) * (s + 1) <= n { s + 1 } else { s });
        assert((s + 1 + 1) * (s + 1 + 1) == (2 * r0 + 2) * (2 * r0 + 2));
        assert(s * s == (2 * r0) * (2 * r0));
        if (s + 1) * (s + 1) <= n {
            assert(is_floor_sqrt(n, (s + 1) as nat));
            assert(floor_sqrt(n) == (s + 1) as nat);
        } else {
            assert(is_floor_sqrt(n, s));
            assert(floor_sqrt(n) == s);
        }
    } else {
        assert(floor_sqrt(n) == 0);
        assert(0 * 0 <= 0 && 0 < (0 + 1) * (0 + 1)) by (nonlinear_arith);
    }
}

proof fn lemma_square_monotone(a: nat, b: nat)
    by (nonlinear_arith)
    requires
        a <= b,
    ensures
        a * a <= b * b,
{
}

/// The rounded-down square root is unique.
pub proof fn lemma_floor_sqrt_unique(n: nat, r: nat)
    requires
        is_floor_sqrt(n, r),
    ensures
        r == floor_sqrt(n),
{
    lemma_floor_sqrt(n);
    let f = floor_sqrt(n);
    if r < f {
        lemma_square_monotone(r + 1, f);
    } else if f < r {
        lemma_square_monotone(f + 1, r);
    }
}

/// Integer square root of `n`, rounded down.
pub fn isqrt(n: u128) -> (r: u64)
    requires
        n < 0x4000_0000_0000_0000_0000_0000_0000_0000u128,
    ensures
        r as nat == floor_sqrt(n as nat),
{
    let mut lo: u128 = 0;
    let mut hi: u128 = 0x8000_0000_0000_0000u128;
    assert(hi * hi == 0x4000_0000_0000_0000_0000_0000_0000_0000u128);
    while hi - lo > 1
        invariant
            lo < hi,
            hi <= 0x8000_0000_0000_0000u128,
            lo * lo <= n,
            n < hi * hi,
        decreases hi - lo,
    {
        let mid: u128 = lo + (hi - lo) / 2;
        assert(mid * mid <= 0x4000_0000_0000_0000_0000_0000_0000_0000u128) by (nonlinear_arith)
            requires
                mid <= 0x8000_0000_0000_0000u128,
        ;
        if mid * mid <= n {
            lo = mid;
        } else {
            hi = mid;
        }
    }
    proof {
        lemma_floor_sqrt_unique(n as nat, lo as nat);
    }
    lo as u64
}

pub open spec fn abs(x: int) -> nat {
    if x >= 0 {
        x as nat
    } else {
        (-x) as nat
    }
}

/// Squared length of the vector `(x, y)`.
pub open spec fn norm_sq(x: int, y: int) -> int {
    x * x + y * y
}

/// One component of a vector of length `len` pointing along `(x, y)`, where `d` is
/// the rounded-down length of `(x, y)` blown up by `DIRECTION_SCALE`; the magnitude
/// is rounded toward zero.
pub open spec fn scaled_component(c: int, len: nat, d: nat) -> int {
    let m = (abs(c) * DIRECTION_SCALE * len) / (d as int);
    if c >= 0 {
        m
    } else {
        -m
    }
}

/// The vector `(x, y)` rescaled to length `len` in fixed point; the zero vector stays zero.
pub open spec fn scaled_direction_spec(x: int, y: int, len: nat) -> (int, int) {
    if x == 0 && y == 0 {
        (0, 0)
    } else {
        let a = abs(x) * DIRECTION_SCALE;
        let b = abs(y) * DIRECTION_SCALE;
        let d = floor_sqrt((a * a + b * b) as nat);
        (scaled_component(x, len, d), scaled_component(y, len, d))
    }
}

proof fn lemma_root_at_least(s: nat, d: nat, k: nat)
    by (nonlinear_arith)
    requires
        is_floor_sqrt(s, d),
        k * k <= s,
    ensures
        k <= d,
{
}

proof fn lemma_upper(a: nat, b: nat, p: nat, q: nat, d: nat, l: nat)
    by (nonlinear_arith)
    requires
        d > 0,
        l <= d,
        p * d <= a * l,
        q * d <= b * l,
        a * a + b * b < (d + 1) * (d + 1),
    ensures
        p * p + q * q < (l + 1) * (l + 1),
{
    assert(p * p * (d * d) <= a * a * (l * l));
    assert(q * q * (d * d) <= b * b * (l * l));
    assert((p * p + q * q) * (d * d) <= (a * a + b * b) * (l * l));
    assert((a * a + b * b) * (l * l) <= (d + 1) * (d + 1) * (l * l));
    assert((d + 1) * l <= d * (l + 1));
    assert((d + 1) * (d + 1) * (l * l) <= (d * d) * ((l + 1) * (l + 1)));
    if (a * a + b * b) * (l * l) == (d + 1) * (d + 1) * (l * l) {
        assert(l == 0);
    }
}

proof fn lemma_lower_rounded_up(a: nat, b: nat, p: nat, q: nat, d: nat, l: nat)
    requires
        d > 0,
        a * l < (p + 1) * d,
        b * l < (q + 1) * d,
        d * d <= a * a + b * b,
    ensures
        l * l < (p + 1) * (p + 1) + (q + 1) * (q + 1),
{
    lemma_square_strict((a * l) as int, ((p + 1) * d) as int);
    lemma_square_strict((b * l) as int, ((q + 1) * d) as int);
    assert((d * d) * (l * l) <= (a * a + b * b) * (l * l)) by (nonlinear_arith)
        requires
            d * d <= a * a + b * b,
    ;
    assert((a * l) * (a * l) + (b * l) * (b * l) == (a * a + b * b) * (l * l)) by (nonlinear_arith);
    assert(((p + 1) * d) * ((p + 1) * d) + ((q + 1) * d) * ((q + 1) * d) == ((p + 1) * (p + 1) + (q + 1) * (q + 1)) * (d * d)) by (nonlinear_arith);
    assert((l * l) * (d * d) < ((p + 1) * (p + 1) + (q + 1) * (q + 1)) * (d * d));
    lemma_cancel_positive((l * l) as int, ((p + 1) * (p + 1) + (q + 1) * (q + 1)) as int, (d * d) as int);
}

proof fn lemma_square_strict(u: int, v: int)
    by (nonlinear_arith)
    requires
        0 <= u < v,
    ensures
        u * u < v * v,
{
}

proof fn lemma_cancel_positive(u: int, v: int, w: int)
    by (nonlinear_arith)
    requires
        w > 0,
        u * w < v * w,
    ensures
        u < v,
{
}

proof fn lemma_lower(p: nat, q: nat, l: nat)
    by (nonlinear_arith)
    requires
        l >= 2,
        l * l < (p + 1) * (p + 1) + (q + 1) * (q + 1),
    ensures
        (l - 2) * (l - 2) < p * p + q * q,
{
    if p * p + q * q <= (l - 2) * (l - 2) {
        assert((p + q) * (p + q) <= 2 * (p * p + q * q));
        assert((p + q) * (p + q) <= (2 * (l - 2)) * (2 * (l - 2)));
        assert(p + q <= 2 * (l - 2));
    }
}

/// A nonzero vector rescaled to length `len` has, after rounding, a length within
/// `(len - 2, len + 1)`.
pub proof fn lemma_scaled_direction_length(x: int, y: int, len: nat)
    requires
        x != 0 || y != 0,
        2 <= len <= LENGTH_MAX,
    ensures
        ({
            let r = scaled_direction_spec(x, y, len);
            (len - 2) * (len - 2) < norm_sq(r.0, r.1) < (len + 1) * (len + 1)
        }),
{
    let k = DIRECTION_SCALE as nat;
    let a = abs(x) * k;
    let b = abs(y) * k;
    let s = (a * a + b * b) as nat;
    let d = floor_sqrt(s);
    lemma_floor_sqrt(s);
    assert(k * k <= s) by (nonlinear_arith)
        requires
            abs(x) >= 1 || abs(y) >= 1,
            a == abs(x) * k,
            b == abs(y) * k,
            s == a * a + b * b,
    ;
    lemma_root_at_least(s, d, k);
    let p = (a * len) / d;
    let q = (b * len) / d;
    assert(p * d <= a * len && a * len < (p + 1) * d) by (nonlinear_arith)
        requires
            d > 0,
            p == (a * len) / d,
    ;
    assert(q * d <= b * len && b * len < (q + 1) * d) by (nonlinear_arith)
        requires
            d > 0,
            q == (b * len) / d,
    ;
    assert(p >= 0 && q >= 0) by (nonlinear_arith)
        requires
            d > 0,
            a >= 0,
            b >= 0,
            p == (a * len) / d,
            q == (b * len) / d,
    ;
    lemma_upper(a as nat, b as nat, p as nat, q as nat, d, len);
    lemma_lower_rounded_up(a as nat, b as nat, p as nat, q as nat, d, len);
    lemma_lower(p as nat, q as nat, len);
    let r = scaled_direction_spec(x, y, len);
    assert(r.0 * r.0 == p * p && r.1 * r.1 == q * q) by (nonlinear_arith)
        requires
            r.0 == p || r.0 == -p,
            r.1 == q || r.1 == -q,
    ;
}

/// Rescales `(x, y)` to length `len`, in fixed point; the zero vector stays zero.
pub fn scaled_direction(x: i64, y: i64, len: u64) -> (r: (i64, i64))
    requires
        -COORD_MAX <= x <= COORD_MAX,
        -COORD_MAX <= y <= COORD_MAX,
        len <= LENGTH_MAX,
    ensures
        (r.0 as int, r.1 as int) == scaled_direction_spec(x as int, y as int, len as nat),
        -(len as int) <= r.0 <= len,
        -(len as int) <= r.1 <= len,
        x >= 0 ==> r.0 >= 0,
        y >= 0 ==> r.1 >= 0,
{
    if x == 0 && y == 0 {
        return (0, 0);
    }
    let ax: u128 = if x >= 0 { x as u128 } else { (-x) as u128 };
    let ay: u128 = if y >= 0 { y as u128 } else { (-y) as u128 };
    let a: u128 = ax * (DIRECTION_SCALE as u128);
    let b: u128 = ay * (DIRECTION_SCALE as u128);
    assert(a * a + b * b < 0x4000_0000_0000_0000_0000_0000_0000_0000u128) by (nonlinear_arith)
        requires
            a <= 0x4000_0000_0000_0000u128,
            b <= 0x4000_0000_0000_0000u128,
    ;
    let d: u64 = isqrt(a * a + b * b);
    proof {
        lemma_floor_sqrt(((a * a + b * b) as nat));
        assert(DIRECTION_SCALE * DIRECTION_SCALE <= a * a + b * b) by (nonlinear_arith)
            requires
                ax >= 1 || ay >= 1,
                a == ax * DIRECTION_SCALE,
                b == ay * DIRECTION_SCALE,
        ;
        lemma_root_at_least((a * a + b * b) as nat, d as nat, DIRECTION_SCALE as nat);
    }
    assert(a * (len as u128) <= 0x10_0000_0000_0000_0000_0000u128) by (nonlinear_arith)
        requires
            a <= 0x4000_0000_0000_0000u128,
            len <= LENGTH_MAX,
    ;
    assert(b * (len as u128) <= 0x10_0000_0000_0000_0000_0000u128) by (nonlinear_arith)
        requires
            b <= 0x4000_0000_0000_0000u128,
            len <= LENGTH_MAX,
    ;
    let p: u128 = a * (len as u128) / (d as u128);
    let q: u128 = b * (len as u128) / (d as u128);
    assert(p <= len && q <= len) by (nonlinear_arith)
        requires
            d >= DIRECTION_SCALE,
            is_floor_sqrt((a * a + b * b) as nat, d as nat),
            p == a * len / (d as int),
            q == b * len / (d as int),
    {
        assert(a * a <= (d + 1) * (d + 1));
        assert(a <= d);
        assert(b * b <= (d + 1) * (d + 1));
        assert(b <= d);
        assert(a * len <= d * len);
        assert(b * len <= d * len);
    };
    let rx: i64 = if x >= 0 { p as i64 } else { -(p as i64) };
    let ry: i64 = if y >= 0 { q as i64 } else { -(q as i64) };
    (rx, ry)
}

/// `a / b` with the quotient rounded toward zero.
pub open spec fn div_trunc(a: int, b: int) -> int {
    if a >= 0 {
        a / b
    } else {
        -((-a) / b)
    }
}

/// Integer division of `a` by a positive `b`, rounded toward zero.
pub fn div_trunc_i64(a: i64, b: i64) -> (r: i64)
    requires
        a > i64::MIN,
        b > 0,
    ensures
        r as int == div_trunc(a as int, b as int),
{
    if a >= 0 {
        a / b
    } else {
        -((-a) / b)
    }
}

/// Dividing by a positive number never makes a value larger in magnitude.
pub proof fn lemma_div_trunc_bound(a: int, b: int, m: int)
    by (nonlinear_arith)
    requires
        b >= 1,
        -m * b <= a <= m * b,
        m >= 0,
    ensures
        -m <= div_trunc(a, b) <= m,
{
}

/// Scaling by `f / one` with `0 <= f <= c * one` makes a value at most `c` times larger
/// in magnitude.
pub proof fn lemma_div_trunc_factor(a: int, f: int, one: int, m: int, c: int)
    requires
        one >= 1,
        c >= 0,
        0 <= f <= c * one,
        -m <= a <= m,
        m >= 0,
    ensures
        -(c * m) <= div_trunc(a * f, one) <= c * m,
{
    assert(-(c * m) * one <= a * f <= (c * m) * one) by (nonlinear_arith)
        requires
            0 <= f <= c * one,
            -m <= a <= m,
            m >= 0,
            c >= 0,
    ;
    lemma_div_trunc_bound(a * f, one, c * m);
}

/// A coordinate of a vector is no longer than the vector.
pub proof fn lemma_component_bound(x: int, y: int, m: int)
    by (nonlinear_arith)
    requires
        m >= 0,
        x * x + y * y <= m * m,
    ensures
        -m <= x <= m,
        -m <= y <= m,
{
}

} // verus!
