use vstd::prelude::*;
use crate::types::{Rect, WASDKey};

verus! {

/// `√a + p ≤ √b + q` for non-negative `a`, `b`, decided without square roots.
pub open spec fn score_le(a: int, p: int, b: int, q: int) -> bool {
    let d = q - p;
    if d >= 0 {
        let l = a - b - d * d;
        l <= 0 || l * l <= 4 * d * d * b
    } else {
        let m = b - a - d * d;
        m >= 0 && 4 * d * d * a <= m * m
    }
}

/// `m / k` is at least `√a + p`.
pub open spec fn above(a: int, p: int, k: int, m: int) -> bool {
    m - k * p >= 0 && (m - k * p) * (m - k * p) >= k * k * a
}

proof fn lemma_square_le(x: int, y: int)
    requires
        x >= 0,
        y >= 0,
        x * x <= y * y,
    ensures
        x <= y,
{
    if x > y {
        assert(x * x > y * y) by (nonlinear_arith)
            requires x > y, y >= 0;
    }
}

proof fn lemma_square_lt(x: int, y: int)
    requires
        y >= 0,
        x * x < y * y,
    ensures
        x < y,
{
    if x >= y {
        assert(x * x >= y * y) by (nonlinear_arith)
            requires x >= y, y >= 0;
    }
}

/// The least integer from `s` on whose square reaches `n`.
proof fn ceil_root_from(n: int, s: int) -> (t: int)
    requires
        0 <= s,
        s * s < n,
    ensures
        t >= 1,
        t * t >= n,
        (t - 1) * (t - 1) < n,
    decreases n - s,
{
    assert(s < n) by (nonlinear_arith)
        requires 0 <= s, s * s < n;
    if (s + 1) * (s + 1) >= n {
        s + 1
    } else {
        ceil_root_from(n, s + 1)
    }
}

/// The least non-negative integer whose square reaches `n`.
proof fn ceil_root(n: int) -> (t: int)
    requires
        n >= 0,
    ensures
        t >= 0,
        t * t >= n,
        t == 0 || (t - 1) * (t - 1) < n,
        t == 0 ==> n == 0,
{
    if n == 0 {
        0
    } else {
        ceil_root_from(n, 0)
    }
}

/// A score no worse than another stays under every rational bound of the other.
proof fn lemma_le_keeps_above(a: int, p: int, b: int, q: int, k: int, m: int)
    requires
        a >= 0,
        b >= 0,
        p >= 0,
        q >= 0,
        k > 0,
        score_le(a, p, b, q),
        above(b, q, k, m),
    ensures
        above(a, p, k, m),
{
    let t = m - k * q;
    let d = q - p;
    assert(m - k * p == t + k * d) by (nonlinear_arith)
        requires t == m - k * q, d == q - p;
    assert(t * t >= k * k * b);
    if d >= 0 {
        let l = a - b - d * d;
        assert(t + k * d >= 0) by (nonlinear_arith)
            requires t >= 0, k > 0, d >= 0;
        if l <= 0 {
            assert((t + k * d) * (t + k * d) >= k * k * a) by (nonlinear_arith)
                requires t * t >= k * k * b, t >= 0, k > 0, d >= 0, l == a - b - d * d, l <= 0;
        } else {
            assert(l * l <= 4 * d * d * b);
            assert((2 * d * t) * (2 * d * t) >= (k * l) * (k * l)) by (nonlinear_arith)
                requires t * t >= k * k * b, l * l <= 4 * d * d * b, k > 0, d >= 0;
            assert(2 * d * t >= 0) by (nonlinear_arith)
                requires d >= 0, t >= 0;
            assert(k * l >= 0) by (nonlinear_arith)
                requires k > 0, l > 0;
            lemma_square_le(k * l, 2 * d * t);
            assert((t + k * d) * (t + k * d) >= k * k * a) by (nonlinear_arith)
                requires t * t >= k * k * b, k * l <= 2 * d * t, k > 0, l == a - b - d * d;
        }
    } else {
        let e = -d;
        let mm = b - a - e * e;
        assert(d * d == e * e) by (nonlinear_arith)
            requires e == -d;
        assert(4 * d * d * a == 4 * e * e * a) by (nonlinear_arith)
            requires d * d == e * e;
        assert(mm >= 0 && 4 * e * e * a <= mm * mm);
        assert(k * k * b >= (k * e) * (k * e)) by (nonlinear_arith)
            requires mm == b - a - e * e, mm >= 0, a >= 0, k > 0;
        assert(k * e >= 0) by (nonlinear_arith)
            requires k > 0, e > 0;
        lemma_square_le(k * e, t);
        let u = t - k * e;
        assert(m - k * p == u) by (nonlinear_arith)
            requires m - k * p == t + k * d, u == t - k * e, e == -d;
        if u * u < k * k * a {
            assert((2 * u * e) * (2 * u * e) < (k * mm) * (k * mm)) by (nonlinear_arith)
                requires u * u < k * k * a, 4 * e * e * a <= mm * mm, e > 0, k > 0;
            assert(k * mm >= 0) by (nonlinear_arith)
                requires k > 0, mm >= 0;
            lemma_square_lt(2 * u * e, k * mm);
            assert(t * t < k * k * b) by (nonlinear_arith)
                requires
                    u == t - k * e,
                    u >= 0,
                    u * u < k * k * a,
                    2 * u * e < k * mm,
                    mm == b - a - e * e,
                    k > 0,
                    e > 0;
        }
    }
}

/// `t` bounds `k·√c` from above by less than one, so `t` is at most `k·(c + 1)`.
proof fn lemma_root_bound(c: int, k: int, t: int)
    requires
        c >= 0,
        k > 0,
        t >= 1,
        (t - 1) * (t - 1) < k * k * c,
    ensures
        t <= k * (c + 1),
        t * t <= k * k * c + 2 * t - 2,
{
    assert(k * k * c <= (k * (c + 1)) * (k * (c + 1))) by (nonlinear_arith)
        requires c >= 0, k > 0;
    assert(k * (c + 1) >= 0) by (nonlinear_arith)
        requires c >= 0, k > 0;
    lemma_square_lt(t - 1, k * (c + 1));
    assert(t * t == (t - 1) * (t - 1) + 2 * t - 1) by (nonlinear_arith);
}

/// When `√a > √c + δ` with `δ ≥ 0`, some `m / k` lies in `[√c + r, √a + p)`, `δ = r - p`.
proof fn separate_ahead(a: int, p: int, c: int, r: int) -> (km: (int, int))
    requires
        a >= 0,
        c >= 0,
        p >= 0,
        r >= 0,
        r - p >= 0,
        a - c - (r - p) * (r - p) > 0,
        (a - c - (r - p) * (r - p)) * (a - c - (r - p) * (r - p)) > 4 * (r - p) * (r - p) * c,
    ensures
        km.0 > 0,
        above(c, r, km.0, km.1),
        !above(a, p, km.0, km.1),
{
    let d = r - p;
    let l = a - c - d * d;
    let k = 2 * (c + 1 + d) * (l + 2 * d * (c + 1));
    assert(k > 0) by (nonlinear_arith)
        requires k == 2 * (c + 1 + d) * (l + 2 * d * (c + 1)), c >= 0, d >= 0, l > 0;
    assert(k * k * c >= 0) by (nonlinear_arith)
        requires k > 0, c >= 0;
    let t = ceil_root(k * k * c);
    let m = t + k * r;
    assert(m - k * r == t);
    assert(m - k * p == t + k * d) by (nonlinear_arith)
        requires m == t + k * r, d == r - p;
    assert(above(c, r, k, m));
    if t == 0 {
        assert(c == 0) by (nonlinear_arith)
            requires k * k * c == 0, k > 0;
        assert((k * d) * (k * d) < k * k * a) by (nonlinear_arith)
            requires l == a - c - d * d, l > 0, c == 0, k > 0;
        assert(!above(a, p, k, m));
    } else {
        lemma_root_bound(c, k, t);
        let g = k * l - 2 * d * (t - 1);
        assert((k * l) * (k * l) >= 4 * d * d * (t - 1) * (t - 1) + k * k) by (nonlinear_arith)
            requires l * l >= 4 * d * d * c + 1, (t - 1) * (t - 1) < k * k * c, k > 0, d >= 0;
        assert(k * l + 2 * d * (t - 1) > 0) by (nonlinear_arith)
            requires k > 0, l > 0, d >= 0, t >= 1;
        assert(g * (k * l + 2 * d * (t - 1)) >= k * k) by (nonlinear_arith)
            requires g == k * l - 2 * d * (t - 1), (k * l) * (k * l) >= 4 * d * d * (t - 1) * (t - 1) + k * k;
        assert(g > 0) by (nonlinear_arith)
            requires g * (k * l + 2 * d * (t - 1)) >= k * k, k * l + 2 * d * (t - 1) > 0, k > 0;
        assert(g * (k * l + 2 * d * t) >= k * k) by (nonlinear_arith)
            requires g * (k * l + 2 * d * (t - 1)) >= k * k, g > 0, d >= 0;
        let f1 = 2 * t + 2 * k * d;
        let f2 = k * l + 2 * d * t;
        let u1 = 2 * (c + 1 + d);
        let u2 = l + 2 * d * (c + 1);
        assert(f1 <= k * u1) by (nonlinear_arith)
            requires f1 == 2 * t + 2 * k * d, u1 == 2 * (c + 1 + d), t <= k * (c + 1);
        assert(f2 <= k * u2) by (nonlinear_arith)
            requires f2 == k * l + 2 * d * t, u2 == l + 2 * d * (c + 1), t <= k * (c + 1), d >= 0;
        assert(f1 >= 0 && f2 >= 0) by (nonlinear_arith)
            requires f1 == 2 * t + 2 * k * d, f2 == k * l + 2 * d * t, t >= 1, k > 0, d >= 0, l > 0;
        assert(f1 * f2 <= (k * u1) * (k * u2)) by (nonlinear_arith)
            requires f1 <= k * u1, f2 <= k * u2, f1 >= 0, f2 >= 0;
        assert((k * u1) * (k * u2) == k * k * k) by (nonlinear_arith)
            requires k == u1 * u2;
        assert((2 * t + 2 * k * d) * (k * l + 2 * d * t) <= k * k * k);
        assert(k * l + 2 * d * t > 0) by (nonlinear_arith)
            requires k > 0, l > 0, d >= 0, t >= 1;
        assert(k * g >= 2 * t + 2 * k * d) by (nonlinear_arith)
            requires
                g * (k * l + 2 * d * t) >= k * k,
                (2 * t + 2 * k * d) * (k * l + 2 * d * t) <= k * k * k,
                k * l + 2 * d * t > 0,
                k > 0;
        let kd = k * d;
        let kk = k * k;
        let dd = d * d;
        assert((t + kd) * (t + kd) == t * t + 2 * t * kd + kd * kd) by (nonlinear_arith);
        assert(2 * k * d == 2 * kd) by (nonlinear_arith)
            requires kd == k * d;
        assert(kd * kd == kk * dd) by (nonlinear_arith)
            requires kd == k * d, kk == k * k, dd == d * d;
        assert(kk * a == kk * l + kk * c + kk * dd) by (nonlinear_arith)
            requires l == a - c - dd;
        assert(k * g == kk * l - 2 * t * kd + 2 * kd) by (nonlinear_arith)
            requires g == k * l - 2 * d * (t - 1), kd == k * d, kk == k * k;
        assert((t + kd) * (t + kd) < kk * a) by (nonlinear_arith)
            requires
                (t + kd) * (t + kd) == t * t + 2 * t * kd + kd * kd,
                kd * kd == kk * dd,
                kk * a == kk * l + kk * c + kk * dd,
                k * g == kk * l - 2 * t * kd + 2 * kd,
                k * g >= 2 * t + 2 * kd,
                t * t <= kk * c + 2 * t - 2;
        assert(!above(a, p, k, m));
    }
    (k, m)
}

/// When `c < a + e²` with `e = p - r > 0`, some `m / k` lies in `[√c + r, √a + p)`.
proof fn separate_wide(a: int, p: int, c: int, r: int) -> (km: (int, int))
    requires
        a >= 0,
        c >= 0,
        p >= 0,
        r >= 0,
        p - r > 0,
        c < a + (p - r) * (p - r),
    ensures
        km.0 > 0,
        above(c, r, km.0, km.1),
        !above(a, p, km.0, km.1),
{
    let e = p - r;
    let k = 2 * (c + 1);
    assert(k * k * c >= 0) by (nonlinear_arith)
        requires k > 0, c >= 0;
    let t = ceil_root(k * k * c);
    let m = t + k * r;
    assert(m - k * r == t);
    assert(m - k * p == t - k * e) by (nonlinear_arith)
        requires m == t + k * r, e == p - r;
    assert(above(c, r, k, m));
    if t == 0 {
        assert(k * k * (a + e * e) > 0) by (nonlinear_arith)
            requires k > 0, e > 0, a >= 0;
    } else {
        lemma_root_bound(c, k, t);
        assert(2 * t <= k * k) by (nonlinear_arith)
            requires t <= k * (c + 1), k == 2 * (c + 1);
        assert(k * k * (c + 1) <= k * k * (a + e * e)) by (nonlinear_arith)
            requires c + 1 <= a + e * e, k > 0;
        assert(k * k * (c + 1) == k * k * c + k * k) by (nonlinear_arith);
    }
    assert(t * t < k * k * (a + e * e));
    if t - k * e >= 0 {
        assert((t - k * e) * (t - k * e) < k * k * a) by (nonlinear_arith)
            requires t * t < k * k * (a + e * e), t - k * e >= 0, k > 0, e > 0;
    }
    assert(!above(a, p, k, m));
    (k, m)
}

/// When `√c < √a + e` with `e = p - r > 0` and `c ≥ a + e²`, some `m / k` lies in
/// `[√c + r, √a + p)`.
proof fn separate_close(a: int, p: int, c: int, r: int) -> (km: (int, int))
    requires
        a >= 0,
        c >= 0,
        p >= 0,
        r >= 0,
        p - r > 0,
        c - a - (p - r) * (p - r) >= 0,
        (c - a - (p - r) * (p - r)) * (c - a - (p - r) * (p - r)) < 4 * (p - r) * (p - r) * a,
    ensures
        km.0 > 0,
        above(c, r, km.0, km.1),
        !above(a, p, km.0, km.1),
{
    let e = p - r;
    let mm = c - a - e * e;
    let k = 2 * (c + 1) * (2 * e * (c + 1) + mm + 2 * e * e);
    assert(k > 0) by (nonlinear_arith)
        requires k == 2 * (c + 1) * (2 * e * (c + 1) + mm + 2 * e * e), c >= 0, e > 0, mm >= 0;
    assert(c >= 1) by (nonlinear_arith)
        requires mm == c - a - e * e, mm >= 0, a >= 0, e > 0;
    assert(k * k * c >= 1) by (nonlinear_arith)
        requires k > 0, c >= 1;
    let t = ceil_root(k * k * c);
    let m = t + k * r;
    assert(m - k * r == t);
    assert(m - k * p == t - k * e) by (nonlinear_arith)
        requires m == t + k * r, e == p - r;
    assert(above(c, r, k, m));
    assert(t >= 1);
    lemma_root_bound(c, k, t);
    let x = 2 * e * t;
    let y = k * (mm + 2 * e * e);
    let ee = e * e;
    let kk = k * k;
    assert(x * x == 4 * ee * (t * t)) by (nonlinear_arith)
        requires x == 2 * e * t, ee == e * e;
    assert(ee >= 0 && kk >= 0) by (nonlinear_arith)
        requires ee == e * e, kk == k * k;
    assert(4 * ee * a == 4 * e * e * a && 2 * e * e == 2 * ee) by (nonlinear_arith)
        requires ee == e * e;
    assert(y == k * (mm + 2 * ee));
    assert(4 * ee * (t * t) >= 4 * ee * (kk * c)) by (nonlinear_arith)
        requires t * t >= kk * c, ee >= 0;
    assert(4 * ee * (kk * c) == kk * (4 * ee * a + 4 * ee * ee + 4 * ee * mm)) by (nonlinear_arith)
        requires c == a + ee + mm;
    assert(kk * (4 * ee * a + 4 * ee * ee + 4 * ee * mm) >= kk * (mm * mm + 1 + 4 * ee * ee + 4 * ee * mm))
        by (nonlinear_arith)
        requires 4 * ee * a >= mm * mm + 1, kk >= 0, ee == e * e, 4 * e * e * a >= mm * mm + 1;
    assert(kk * (mm * mm + 1 + 4 * ee * ee + 4 * ee * mm) == y * y + kk) by (nonlinear_arith)
        requires y == k * (mm + 2 * ee), kk == k * k;
    assert(x * x >= y * y + k * k);
    assert(x + y > 0) by (nonlinear_arith)
        requires x == 2 * e * t, y == k * (mm + 2 * e * e), e > 0, t >= 1, k > 0, mm >= 0;
    let h = x - y;
    assert(h * (x + y) >= k * k) by (nonlinear_arith)
        requires h == x - y, x * x >= y * y + k * k;
    let w = 2 * e * (c + 1) + mm + 2 * e * e;
    assert(x + y <= k * w) by (nonlinear_arith)
        requires x == 2 * e * t, y == k * (mm + 2 * e * e), w == 2 * e * (c + 1) + mm + 2 * e * e, t <= k * (c + 1), e > 0;
    assert(2 * t <= k * (2 * (c + 1))) by (nonlinear_arith)
        requires t <= k * (c + 1);
    assert(2 * t * (x + y) <= (k * (2 * (c + 1))) * (k * w)) by (nonlinear_arith)
        requires 2 * t <= k * (2 * (c + 1)), x + y <= k * w, x + y > 0, t >= 1;
    assert((k * (2 * (c + 1))) * (k * w) == k * k * k) by (nonlinear_arith)
        requires k == 2 * (c + 1) * w;
    assert(k * h >= 2 * t) by (nonlinear_arith)
        requires h * (x + y) >= k * k, 2 * t * (x + y) <= k * k * k, x + y > 0, k > 0;
    if t - k * e >= 0 {
        let ke = k * e;
        assert((t - ke) * (t - ke) == t * t - 2 * t * ke + ke * ke) by (nonlinear_arith);
        assert(ke * ke == kk * ee) by (nonlinear_arith)
            requires ke == k * e, kk == k * k, ee == e * e;
        assert(kk * c == kk * a + kk * ee + kk * mm) by (nonlinear_arith)
            requires c == a + ee + mm;
        assert(k * h == 2 * t * ke - kk * mm - 2 * kk * ee) by (nonlinear_arith)
            requires h == x - y, x == 2 * e * t, y == k * (mm + 2 * ee), ke == k * e, kk == k * k;
        assert((t - ke) * (t - ke) < kk * a) by (nonlinear_arith)
            requires
                (t - ke) * (t - ke) == t * t - 2 * t * ke + ke * ke,
                ke * ke == kk * ee,
                kk * c == kk * a + kk * ee + kk * mm,
                k * h == 2 * t * ke - kk * mm - 2 * kk * ee,
                k * h >= 2 * t,
                t * t <= kk * c + 2 * t - 2;
    }
    assert(!above(a, p, k, m));
    (k, m)
}

/// When `√a + p > √c + r`, some `m / k` lies in `[√c + r, √a + p)`.
proof fn separate(a: int, p: int, c: int, r: int) -> (km: (int, int))
    requires
        a >= 0,
        c >= 0,
        p >= 0,
        r >= 0,
        !score_le(a, p, c, r),
    ensures
        km.0 > 0,
        above(c, r, km.0, km.1),
        !above(a, p, km.0, km.1),
{
    let d = r - p;
    if d >= 0 {
        assert(4 * d * d * c >= 0) by (nonlinear_arith)
            requires c >= 0;
        separate_ahead(a, p, c, r)
    } else {
        let e = p - r;
        assert(d * d == e * e) by (nonlinear_arith)
            requires e == -d;
        assert(4 * d * d * a == 4 * e * e * a) by (nonlinear_arith)
            requires d * d == e * e;
        if c < a + e * e {
            separate_wide(a, p, c, r)
        } else {
            separate_close(a, p, c, r)
        }
    }
}

/// The score order is transitive.
pub proof fn lemma_score_le_transitive(a: int, p: int, b: int, q: int, c: int, r: int)
    requires
        a >= 0,
        b >= 0,
        c >= 0,
        p >= 0,
        q >= 0,
        r >= 0,
        score_le(a, p, b, q),
        score_le(b, q, c, r),
    ensures
        score_le(a, p, c, r),
{
    if !score_le(a, p, c, r) {
        let (k, m) = separate(a, p, c, r);
        lemma_le_keeps_above(b, q, c, r, k, m);
        lemma_le_keeps_above(a, p, b, q, k, m);
    }
}

/// Of two scores, one is no worse than the other.
pub proof fn lemma_score_le_total(a: int, p: int, b: int, q: int)
    ensures
        score_le(a, p, b, q) || score_le(b, q, a, p),
{
    assert((p - q) * (p - q) == (q - p) * (q - p)) by (nonlinear_arith);
    assert(4 * (p - q) * (p - q) * a == 4 * (q - p) * (q - p) * a) by (nonlinear_arith);
    assert(4 * (p - q) * (p - q) * b == 4 * (q - p) * (q - p) * b) by (nonlinear_arith);
}

/// Horizontal offset of the centre of `t` from that of `o`, in doubled units.
pub open spec fn off_x(o: Rect, t: Rect) -> int {
    t.center2_x() - o.center2_x()
}

/// Vertical offset of the centre of `t` from that of `o`, in doubled units.
pub open spec fn off_y(o: Rect, t: Rect) -> int {
    t.center2_y() - o.center2_y()
}

/// The centre of `t` lies strictly ahead of that of `o` along `key`: the dot product of the
/// offset with the key's unit vector is positive.
pub open spec fn forward(o: Rect, t: Rect, key: WASDKey) -> bool {
    off_x(o, t) * key.spec_direction_vector().0 + off_y(o, t) * key.spec_direction_vector().1 > 0
}

/// Squared distance between the centres, in doubled units.
pub open spec fn dist_sq(o: Rect, t: Rect) -> int {
    off_x(o, t) * off_x(o, t) + off_y(o, t) * off_y(o, t)
}

pub open spec fn abs(v: int) -> int {
    if v < 0 { -v } else { v }
}

/// Offset of `t` across the axis of `key`: vertical for left and right, horizontal for up and down.
pub open spec fn off_axis(o: Rect, t: Rect, key: WASDKey) -> int {
    if key.spec_direction_vector().0 != 0 { abs(off_y(o, t)) } else { abs(off_x(o, t)) }
}

/// The score of `a` (distance plus twice the off-axis offset) is at most that of `b`.
pub open spec fn no_worse(o: Rect, a: Rect, b: Rect, key: WASDKey) -> bool {
    score_le(dist_sq(o, a), 2 * off_axis(o, a, key), dist_sq(o, b), 2 * off_axis(o, b, key))
}

/// Candidate `i` lies ahead and scores no worse than any candidate that lies ahead.
pub open spec fn is_best(o: Rect, c: Seq<(String, Rect)>, key: WASDKey, i: int) -> bool {
    &&& 0 <= i < c.len()
    &&& forward(o, c[i].1, key)
    &&& forall|j: int| 0 <= j < c.len() && #[trigger] forward(o, c[j].1, key) ==> no_worse(o, c[i].1, c[j].1, key)
}

/// Candidate `i` is the first of those that are best.
pub open spec fn is_first_best(o: Rect, c: Seq<(String, Rect)>, key: WASDKey, i: int) -> bool {
    is_best(o, c, key, i) && forall|j: int| 0 <= j < i ==> !is_best(o, c, key, j)
}

/// What the nearest-candidate search promises of its result `r`: none exactly when no
/// candidate lies ahead, else the id of the first best candidate.
pub open spec fn nearest_ok(o: Rect, c: Seq<(String, Rect)>, key: WASDKey, r: Option<String>) -> bool {
    &&& (r is None <==> forall|j: int| 0 <= j < c.len() ==> !#[trigger] forward(o, c[j].1, key))
    &&& (r matches Some(s) ==> exists|i: int| #[trigger] is_first_best(o, c, key, i) && c[i].0 == s)
}

/// Candidate `i`, among the first `n`, lies ahead and scores no worse than any of them that
/// lies ahead.
pub open spec fn best_upto(o: Rect, c: Seq<(String, Rect)>, key: WASDKey, n: int, i: int) -> bool {
    &&& 0 <= i < n
    &&& forward(o, c[i].1, key)
    &&& forall|j: int| 0 <= j < n && #[trigger] forward(o, c[j].1, key) ==> no_worse(o, c[i].1, c[j].1, key)
}

proof fn lemma_measures_nonneg(o: Rect, t: Rect, key: WASDKey)
    ensures
        dist_sq(o, t) >= 0,
        off_axis(o, t, key) >= 0,
{
    let x = off_x(o, t);
    let y = off_y(o, t);
    assert(x * x + y * y >= 0) by (nonlinear_arith);
}

/// Whenever some candidate among the first `n` lies ahead, one of them is best among them.
proof fn lemma_best_exists(o: Rect, c: Seq<(String, Rect)>, key: WASDKey, n: int, w: int)
    requires
        0 <= w < n <= c.len(),
        forward(o, c[w].1, key),
    ensures
        exists|i: int| best_upto(o, c, key, n, i),
    decreases n,
{
    let last = n - 1;
    let t = c[last].1;
    lemma_measures_nonneg(o, t, key);
    if exists|j: int| 0 <= j < last && #[trigger] forward(o, c[j].1, key) {
        let j = choose|j: int| 0 <= j < last && #[trigger] forward(o, c[j].1, key);
        lemma_best_exists(o, c, key, last, j);
        let i = choose|i: int| best_upto(o, c, key, last, i);
        let u = c[i].1;
        lemma_measures_nonneg(o, u, key);
        if !forward(o, t, key) || no_worse(o, u, t, key) {
            assert(best_upto(o, c, key, n, i));
        } else {
            lemma_score_le_total(dist_sq(o, u), 2 * off_axis(o, u, key), dist_sq(o, t), 2 * off_axis(o, t, key));
            assert forall|k: int| 0 <= k < n && #[trigger] forward(o, c[k].1, key) implies no_worse(o, t, c[k].1, key) by {
                lemma_measures_nonneg(o, c[k].1, key);
                if k < last {
                    lemma_score_le_transitive(
                        dist_sq(o, t),
                        2 * off_axis(o, t, key),
                        dist_sq(o, u),
                        2 * off_axis(o, u, key),
                        dist_sq(o, c[k].1),
                        2 * off_axis(o, c[k].1, key),
                    );
                }
            }
            assert(best_upto(o, c, key, n, last));
        }
    } else {
        assert(best_upto(o, c, key, n, last));
    }
}

pub open spec fn wide(h: int, l: int) -> int {
    h * 0x1_0000_0000_0000_0000 + l
}

/// The product of two values under 2^80, as a high and a low part in base 2^64.
fn mul_wide(a: u128, b: u128) -> (r: (u128, u128))
    requires
        a < 0x1_0000_0000_0000_0000_0000,
        b < 0x1_0000_0000_0000_0000_0000,
    ensures
        wide(r.0 as int, r.1 as int) == a * b,
        r.1 < 0x1_0000_0000_0000_0000,
{
    let base: u128 = 0x1_0000_0000_0000_0000;
    let a1 = a / base;
    let a0 = a % base;
    let b1 = b / base;
    let b0 = b % base;
    assert(a1 < 0x1_0000 && b1 < 0x1_0000);
    assert(a0 * b0 < base * base) by (nonlinear_arith) requires a0 < base, b0 < base;
    let low = a0 * b0;
    let lo = low % base;
    let carry = low / base;
    assert(a1 * b0 <= 0x1_0000 * base) by (nonlinear_arith) requires a1 < 0x1_0000, b0 < base;
    assert(a0 * b1 <= 0x1_0000 * base) by (nonlinear_arith) requires b1 < 0x1_0000, a0 < base;
    assert(a1 * b1 <= 0x1_0000 * 0x1_0000) by (nonlinear_arith) requires a1 < 0x1_0000, b1 < 0x1_0000;
    assert(carry < base) by (nonlinear_arith) requires carry == low / base, low < base * base, base > 0;
    let hi = a1 * b1 * base + a1 * b0 + a0 * b1 + carry;
    proof {
        let bs = base as int;
        assert(a == a1 * bs + a0);
        assert(b == b1 * bs + b0);
        assert(low == carry * bs + lo);
        assert(a * b == (a1 * b1 * bs + a1 * b0 + a0 * b1) * bs + a0 * b0) by (nonlinear_arith)
            requires a == a1 * bs + a0, b == b1 * bs + b0;
        assert(wide(hi as int, lo as int) == a * b) by (nonlinear_arith)
            requires
                a * b == (a1 * b1 * bs + a1 * b0 + a0 * b1) * bs + a0 * b0,
                a0 * b0 == carry * bs + lo,
                hi == a1 * b1 * bs + a1 * b0 + a0 * b1 + carry,
                bs == 0x1_0000_0000_0000_0000;
    }
    (hi, lo)
}

/// Whether `w * x <= y * z` for values under 2^80.
fn products_le(w: u128, x: u128, y: u128, z: u128) -> (r: bool)
    requires
        w < 0x1_0000_0000_0000_0000_0000,
        x < 0x1_0000_0000_0000_0000_0000,
        y < 0x1_0000_0000_0000_0000_0000,
        z < 0x1_0000_0000_0000_0000_0000,
    ensures
        r == (w * x <= y * z),
{
    let (h1, l1) = mul_wide(w, x);
    let (h2, l2) = mul_wide(y, z);
    proof {
        let (a, b, c, d) = (h1 as int, l1 as int, h2 as int, l2 as int);
        assert(a < c ==> wide(a, b) < wide(c, d)) by (nonlinear_arith)
            requires 0 <= b < 0x1_0000_0000_0000_0000, 0 <= d;
        assert(a > c ==> wide(a, b) > wide(c, d)) by (nonlinear_arith)
            requires 0 <= d < 0x1_0000_0000_0000_0000, 0 <= b;
    }
    h1 < h2 || (h1 == h2 && l1 <= l2)
}

/// Decides `score_le(a, p, b, q)` for squared distances under 2^69 and penalties under 2^36.
pub fn score_no_worse(a: u128, p: u128, b: u128, q: u128) -> (r: bool)
    requires
        a < 0x20_0000_0000_0000_0000,
        b < 0x20_0000_0000_0000_0000,
        p < 0x10_0000_0000,
        q < 0x10_0000_0000,
    ensures
        r == score_le(a as int, p as int, b as int, q as int),
{
    if q >= p {
        let d = q - p;
        assert(d * d < 0x100_0000_0000_0000_0000) by (nonlinear_arith) requires d < 0x10_0000_0000;
        let dd = d * d;
        if a <= b + dd {
            return true;
        }
        let l = a - b - dd;
        assert(4 * dd < 0x1_0000_0000_0000_0000_0000) by (nonlinear_arith)
            requires dd == d * d, d < 0x10_0000_0000;
        assert(4 * d * d * b == (4 * dd) * b) by (nonlinear_arith) requires dd == d * d;
        products_le(l, l, 4 * dd, b)
    } else {
        let e = p - q;
        assert(e * e < 0x100_0000_0000_0000_0000) by (nonlinear_arith) requires e < 0x10_0000_0000;
        let ee = e * e;
        assert((q as int - p as int) * (q as int - p as int) == ee) by (nonlinear_arith)
            requires e == p - q, ee == e * e;
        if b < a + ee {
            return false;
        }
        let m = b - a - ee;
        assert(4 * ee < 0x1_0000_0000_0000_0000_0000) by (nonlinear_arith)
            requires ee == e * e, e < 0x10_0000_0000;
        assert(4 * (q as int - p as int) * (q as int - p as int) * a == (4 * ee) * a) by (nonlinear_arith)
            requires (q as int - p as int) * (q as int - p as int) == ee;
        products_le(4 * ee, a, m, m)
    }
}

/// How candidate `t` stands relative to origin `o` along `key`: whether it lies ahead, its
/// squared distance and its penalty (twice the off-axis offset).
fn measure(o: &Rect, t: &Rect, key: WASDKey) -> (r: (bool, u128, u128))
    ensures
        r.0 == forward(*o, *t, key),
        r.1 == dist_sq(*o, *t),
        r.2 == 2 * off_axis(*o, *t, key),
        r.1 < 0x20_0000_0000_0000_0000,
        r.2 < 0x10_0000_0000,
{
    let oc = o.center();
    let tc = t.center();
    let dx: i64 = tc.0 - oc.0;
    let dy: i64 = tc.1 - oc.1;
    let ahead = match key {
        WASDKey::W => dy < 0,
        WASDKey::S => dy > 0,
        WASDKey::A => dx < 0,
        WASDKey::D => dx > 0,
    };
    let ax: u128 = if dx < 0 { (-dx) as u128 } else { dx as u128 };
    let ay: u128 = if dy < 0 { (-dy) as u128 } else { dy as u128 };
    assert(ax * ax < 0x4_0000_0000 * 0x4_0000_0000) by (nonlinear_arith) requires ax < 0x4_0000_0000;
    assert(ay * ay < 0x4_0000_0000 * 0x4_0000_0000) by (nonlinear_arith) requires ay < 0x4_0000_0000;
    assert(ax * ax == dx * dx) by (nonlinear_arith) requires ax == abs(dx as int);
    assert(ay * ay == dy * dy) by (nonlinear_arith) requires ay == abs(dy as int);
    let sq = ax * ax + ay * ay;
    let across = match key {
        WASDKey::A | WASDKey::D => ay,
        WASDKey::W | WASDKey::S => ax,
    };
    (ahead, sq, 2 * across)
}

/// The id of the candidate that the cursor moves to from `current_bounds` along `direction`:
/// among the candidates whose centre lies strictly ahead, the first that scores no worse than
/// every other, the score being the distance between centres plus twice the off-axis offset.
pub fn find_nearest_in_direction(current_bounds: &Rect, candidates: &[(String, Rect)], direction: WASDKey) -> (r:
    Option<String>)
    ensures
        nearest_ok(*current_bounds, candidates@, direction, r),
{
    let n = candidates.len();
    let ghost c = candidates@;
    let ghost o = *current_bounds;
    let mut i: usize = 0;
    while i < n
        invariant
            n == c.len(),
            c == candidates@,
            o == *current_bounds,
            i <= n,
            forall|k: int| 0 <= k < i ==> !#[trigger] is_best(o, c, direction, k),
        decreases n - i,
    {
        let (ahead, a, p) = measure(current_bounds, &candidates[i].1, direction);
        if ahead {
            let mut best = true;
            let mut j: usize = 0;
            while j < n
                invariant
                    n == c.len(),
                    c == candidates@,
                    o == *current_bounds,
                    i < n,
                    j <= n,
                    forward(o, c[i as int].1, direction),
                    a == dist_sq(o, c[i as int].1),
                    p == 2 * off_axis(o, c[i as int].1, direction),
                    a < 0x20_0000_0000_0000_0000,
                    p < 0x10_0000_0000,
                    best ==> forall|k: int| 0 <= k < j && #[trigger] forward(o, c[k].1, direction)
                        ==> no_worse(o, c[i as int].1, c[k].1, direction),
                    !best ==> !is_best(o, c, direction, i as int),
                decreases n - j,
            {
                let (ahead_j, b, q) = measure(current_bounds, &candidates[j].1, direction);
                if best && ahead_j && !score_no_worse(a, p, b, q) {
                    best = false;
                }
                j = j + 1;
            }
            if best {
                let r = candidates[i].0.clone();
                assert(is_first_best(o, c, direction, i as int) && c[i as int].0 == r);
                return Some(r);
            }
        }
        i = i + 1;
    }
    proof {
        if exists|w: int| 0 <= w < n && #[trigger] forward(o, c[w].1, direction) {
            let w = choose|w: int| 0 <= w < n && #[trigger] forward(o, c[w].1, direction);
            lemma_best_exists(o, c, direction, n as int, w);
            let b = choose|b: int| best_upto(o, c, direction, n as int, b);
            assert(is_best(o, c, direction, b));
        }
    }
    None
}

/// Whether the point `(target_x, target_y)` lies strictly ahead of `(current_x, current_y)`
/// along the direction `(direction_x, direction_y)`: their dot product is positive.
pub fn is_in_direction(
    current_x: i32,
    current_y: i32,
    target_x: i32,
    target_y: i32,
    direction_x: i32,
    direction_y: i32,
) -> (r: bool)
    ensures
        r == ((target_x - current_x) * direction_x + (target_y - current_y) * direction_y > 0),
{
    let to_x = target_x as i128 - current_x as i128;
    let to_y = target_y as i128 - current_y as i128;
    assert(to_x * direction_x < 0x1_0000_0000_0000_0000 && to_x * direction_x > -0x1_0000_0000_0000_0000) by (nonlinear_arith)
        requires -0x1_0000_0000 < to_x < 0x1_0000_0000, -0x8000_0000 <= direction_x < 0x8000_0000;
    assert(to_y * direction_y < 0x1_0000_0000_0000_0000 && to_y * direction_y > -0x1_0000_0000_0000_0000) by (nonlinear_arith)
        requires -0x1_0000_0000 < to_y < 0x1_0000_0000, -0x8000_0000 <= direction_y < 0x8000_0000;
    to_x * direction_x as i128 + to_y * direction_y as i128 > 0
}

} // verus!
