//! How far rounding takes computed directions and distances from their
//! exact values.

use vstd::prelude::*;
use crate::fixed::{SCALE, quot, is_isqrt, mul_raw, lemma_quot_error};

verus! {

/// The product of a number between minus one and one with a representable
/// number is representable: it is not clamped.
pub proof fn lemma_product_within(n: int, x: int)
    requires
        -SCALE <= n <= SCALE,
        i64::MIN < x <= i64::MAX,
    ensures
        mul_raw(n, x) == quot(n * x, SCALE as int),
        mul_raw(x, n) == quot(n * x, SCALE as int),
        n * x == x * n,
{
    let s = SCALE as int;
    lemma_quot_error(n * x, s);
    let q = quot(n * x, s);
    let bound = if x >= 0 {
        x
    } else {
        -x
    };
    assert(-(s * bound) <= n * x <= s * bound) by (nonlinear_arith)
        requires
            s > 0,
            -s <= n <= s,
            bound >= 0,
            bound == x || bound == -x,
    ;
    assert(-bound <= q <= bound) by (nonlinear_arith)
        requires
            s > 0,
            bound >= 0,
            -(s * bound) <= n * x <= s * bound,
            n * x >= 0 ==> 0 <= s * q <= n * x,
            n * x <= 0 ==> n * x <= s * q <= 0,
    ;
    assert(n * x == x * n) by (nonlinear_arith);
}

/// The square of a rounded quotient, times the square of the divisor, lies
/// between the square of the numerator less twice the product of its size
/// with the divisor, and the square of the numerator.
proof fn lemma_rounded_square(x: int, len: int, size: int)
    requires
        len > 0,
        size >= 0,
        -size <= x <= size,
    ensures
        ({
            let e = len * quot(x, len);
            x * x - 2 * (size * len) <= e * e <= x * x
        }),
{
    let e = len * quot(x, len);
    lemma_quot_error(x, len);
    let rho = x - e;
    assert(e * e <= x * x) by (nonlinear_arith)
        requires
            (x >= 0 && 0 <= e <= x) || (x <= 0 && x <= e <= 0),
    ;
    assert(e * e == x * x - 2 * (x * rho) + rho * rho) by (nonlinear_arith)
        requires
            rho == x - e,
    ;
    assert(rho * rho >= 0) by (nonlinear_arith);
    assert(x * rho <= size * len) by (nonlinear_arith)
        requires
            -size <= x <= size,
            -len < rho < len,
            size >= 0,
            len > 0,
    ;
}

/// The direction of a segment, computed by dividing its span by its
/// rounded length, is nearly a unit vector: its components lie between
/// minus one and one, and its squared length is no less than one by more
/// than four raw units in a whole, and no greater by more than two parts
/// in the length of the segment.
pub proof fn lemma_unit_direction(wx: int, wy: int, len: int)
    requires
        len > 0,
        is_isqrt(wx * wx + wy * wy, len),
    ensures
        ({
            let s = SCALE as int;
            let dx = quot(wx * s, len);
            let dy = quot(wy * s, len);
            let nn = dx * dx + dy * dy;
            &&& -s <= dx <= s
            &&& -s <= dy <= s
            &&& s * s - 4 * s <= nn
            &&& len * (nn - s * s) <= 2 * (s * s)
        }),
{
    let s = SCALE as int;
    let dx = quot(wx * s, len);
    let dy = quot(wy * s, len);
    let nn = dx * dx + dy * dy;
    let w2 = wx * wx + wy * wy;
    assert(wx * wx >= 0 && wy * wy >= 0) by (nonlinear_arith);
    assert(-len <= wx <= len) by (nonlinear_arith)
        requires
            len > 0,
            wx * wx < (len + 1) * (len + 1),
    ;
    assert(-len <= wy <= len) by (nonlinear_arith)
        requires
            len > 0,
            wy * wy < (len + 1) * (len + 1),
    ;
    let x = wx * s;
    let y = wy * s;
    let size = len * s;
    assert(-size <= x <= size && -size <= y <= size) by (nonlinear_arith)
        requires
            -len <= wx <= len,
            -len <= wy <= len,
            s > 0,
            x == wx * s,
            y == wy * s,
            size == len * s,
    ;
    lemma_quot_error(x, len);
    lemma_quot_error(y, len);
    assert(-s <= dx <= s) by (nonlinear_arith)
        requires
            len > 0,
            s > 0,
            size == len * s,
            -size <= x <= size,
            -len < x - len * dx < len,
    ;
    assert(-s <= dy <= s) by (nonlinear_arith)
        requires
            len > 0,
            s > 0,
            size == len * s,
            -size <= y <= size,
            -len < y - len * dy < len,
    ;
    lemma_rounded_square(x, len, size);
    lemma_rounded_square(y, len, size);
    let ex = len * dx;
    let ey = len * dy;
    let ll = len * len;
    let ss = s * s;
    assert(ex * ex + ey * ey == ll * nn) by (nonlinear_arith)
        requires
            ex == len * dx,
            ey == len * dy,
            ll == len * len,
            nn == dx * dx + dy * dy,
    ;
    assert(x * x + y * y == ss * w2) by (nonlinear_arith)
        requires
            x == wx * s,
            y == wy * s,
            ss == s * s,
            w2 == wx * wx + wy * wy,
    ;
    assert(size * len == s * ll) by (nonlinear_arith)
        requires
            size == len * s,
            ll == len * len,
    ;
    // upper bound
    assert(w2 <= ll + 2 * len) by (nonlinear_arith)
        requires
            w2 < (len + 1) * (len + 1),
            ll == len * len,
    ;
    assert(ss * w2 <= ss * ll + 2 * (ss * len)) by (nonlinear_arith)
        requires
            w2 <= ll + 2 * len,
            ss >= 0,
    ;
    assert(ss >= 0) by (nonlinear_arith)
        requires
            ss == s * s,
    ;
    assert(len * (nn - ss) <= 2 * ss) by (nonlinear_arith)
        requires
            len > 0,
            ll == len * len,
            ll * nn <= ss * ll + 2 * (ss * len),
    ;
    // lower bound
    assert(ss * w2 >= ss * ll) by (nonlinear_arith)
        requires
            w2 >= ll,
            ss >= 0,
    ;
    assert(ll * nn >= ss * ll - 4 * (s * ll));
    assert(ll > 0) by (nonlinear_arith)
        requires
            len > 0,
            ll == len * len,
    ;
    assert(nn >= ss - 4 * s) by (nonlinear_arith)
        requires
            ll > 0,
            ll * nn >= ss * ll - 4 * (s * ll),
    ;
}

/// Moving a point by `q` along a direction `n` with components between
/// minus one and one changes its rounded dot product with `n` by `q` times
/// the squared length of `n`, up to six raw units.
pub proof fn lemma_shift_along(nx: int, ny: int, tx: int, ty: int, q: int)
    requires
        -SCALE <= nx <= SCALE,
        -SCALE <= ny <= SCALE,
    ensures
        ({
            let s = SCALE as int;
            let ux = quot(nx * q, s);
            let uy = quot(ny * q, s);
            let before = quot(tx * nx, s) + quot(ty * ny, s);
            let after = quot((tx + ux) * nx, s) + quot((ty + uy) * ny, s);
            -6 * (s * s) < (s * s) * (after - before) - (nx * nx + ny * ny) * q < 6 * (s * s)
        }),
{
    let s = SCALE as int;
    lemma_shift_along_axis(nx, tx, q);
    lemma_shift_along_axis(ny, ty, q);
    let ux = quot(nx * q, s);
    let uy = quot(ny * q, s);
    let d1 = quot((tx + ux) * nx, s) - quot(tx * nx, s);
    let d2 = quot((ty + uy) * ny, s) - quot(ty * ny, s);
    let ss = s * s;
    assert(ss * (d1 + d2) == ss * d1 + ss * d2) by (nonlinear_arith);
    assert((nx * nx + ny * ny) * q == (nx * nx) * q + (ny * ny) * q) by (nonlinear_arith);
}

proof fn lemma_shift_along_axis(n: int, t: int, q: int)
    requires
        -SCALE <= n <= SCALE,
    ensures
        ({
            let s = SCALE as int;
            let u = quot(n * q, s);
            let d = quot((t + u) * n, s) - quot(t * n, s);
            -3 * (s * s) < (s * s) * d - (n * n) * q < 3 * (s * s)
        }),
{
    lemma_shift_across_axis(n, n, t, q);
}

proof fn lemma_shift_across_axis(n: int, w: int, t: int, q: int)
    requires
        -SCALE <= w <= SCALE,
    ensures
        ({
            let s = SCALE as int;
            let u = quot(n * q, s);
            let d = quot((t + u) * w, s) - quot(t * w, s);
            -3 * (s * s) < (s * s) * d - (n * w) * q < 3 * (s * s)
        }),
{
    let s = SCALE as int;
    let ss = s * s;
    let u = quot(n * q, s);
    let after = quot((t + u) * w, s);
    let before = quot(t * w, s);
    let d = after - before;
    lemma_quot_error(n * q, s);
    lemma_quot_error((t + u) * w, s);
    lemma_quot_error(t * w, s);
    let mu = n * q - s * u;
    let beta = (t + u) * w - s * after;
    let alpha = t * w - s * before;
    // s * d = u * w - beta + alpha
    assert(s * d == u * w - beta + alpha) by (nonlinear_arith)
        requires
            d == after - before,
            beta == (t + u) * w - s * after,
            alpha == t * w - s * before,
    ;
    // s * (u * w) = n * w * q - mu * w
    assert(s * (u * w) == (n * w) * q - mu * w) by (nonlinear_arith)
        requires
            mu == n * q - s * u,
    ;
    assert(ss * d == s * (u * w) - s * beta + s * alpha) by (nonlinear_arith)
        requires
            ss == s * s,
            s * d == u * w - beta + alpha,
    ;
    assert(-ss < mu * w < ss) by (nonlinear_arith)
        requires
            -s < mu < s,
            -s <= w <= s,
            s > 0,
            ss == s * s,
    ;
    assert(-ss < s * beta < ss) by (nonlinear_arith)
        requires
            -s < beta < s,
            s > 0,
            ss == s * s,
    ;
    assert(-ss < s * alpha < ss) by (nonlinear_arith)
        requires
            -s < alpha < s,
            s > 0,
            ss == s * s,
    ;
}

/// Moving a point by `q` along the quarter turn `(-wy, wx)` of a direction
/// `w` with components between minus one and one changes its rounded dot
/// product with `w` by at most five raw units: a step across a direction
/// is no step along it.
pub proof fn lemma_shift_across(wx: int, wy: int, tx: int, ty: int, q: int)
    requires
        -SCALE <= wx <= SCALE,
        -SCALE <= wy <= SCALE,
    ensures
        ({
            let s = SCALE as int;
            let ux = quot((-wy) * q, s);
            let uy = quot(wx * q, s);
            let before = quot(tx * wx, s) + quot(ty * wy, s);
            let after = quot((tx + ux) * wx, s) + quot((ty + uy) * wy, s);
            -5 <= after - before <= 5
        }),
{
    let s = SCALE as int;
    let ss = s * s;
    lemma_shift_across_axis(-wy, wx, tx, q);
    lemma_shift_across_axis(wx, wy, ty, q);
    let ux = quot((-wy) * q, s);
    let uy = quot(wx * q, s);
    let d1 = quot((tx + ux) * wx, s) - quot(tx * wx, s);
    let d2 = quot((ty + uy) * wy, s) - quot(ty * wy, s);
    assert(((-wy) * wx) * q + (wx * wy) * q == 0) by (nonlinear_arith);
    assert(ss * (d1 + d2) == ss * d1 + ss * d2) by (nonlinear_arith);
    let d = d1 + d2;
    assert(-6 < d < 6) by (nonlinear_arith)
        requires
            ss == s * s,
            s > 0,
            -6 * ss < ss * d < 6 * ss,
    ;
}

/// Changing a factor by at most `tol` changes its rounded product with a
/// number between minus one and one by at most `tol + 1`.
pub proof fn lemma_product_is_stable(n: int, t: int, u: int, tol: int)
    requires
        -SCALE <= n <= SCALE,
        -tol <= u - t <= tol,
    ensures
        -(tol + 1) <= quot(u * n, SCALE as int) - quot(t * n, SCALE as int) <= tol + 1,
{
    let s = SCALE as int;
    let qu = quot(u * n, s);
    let qt = quot(t * n, s);
    lemma_quot_error(u * n, s);
    lemma_quot_error(t * n, s);
    let d = u - t;
    assert(u * n - t * n == d * n) by (nonlinear_arith)
        requires
            d == u - t,
    ;
    assert(-(tol * s) <= d * n <= tol * s) by (nonlinear_arith)
        requires
            -s <= n <= s,
            -tol <= d <= tol,
            s > 0,
    ;
    assert(-(tol + 2) < qu - qt < tol + 2) by (nonlinear_arith)
        requires
            s > 0,
            -s < u * n - s * qu < s,
            -s < t * n - s * qt < s,
            -(tol * s) <= u * n - t * n <= tol * s,
    ;
}

/// The rounded product of a difference differs from the difference of the
/// rounded products by at most two.
pub proof fn lemma_product_of_difference(n: int, x: int, y: int)
    ensures
        -2 <= quot((x - y) * n, SCALE as int) - (quot(x * n, SCALE as int) - quot(
            y * n,
            SCALE as int,
        )) <= 2,
{
    let s = SCALE as int;
    let qd = quot((x - y) * n, s);
    let qx = quot(x * n, s);
    let qy = quot(y * n, s);
    lemma_quot_error((x - y) * n, s);
    lemma_quot_error(x * n, s);
    lemma_quot_error(y * n, s);
    assert((x - y) * n == x * n - y * n) by (nonlinear_arith);
    assert(-3 < qd - (qx - qy) < 3) by (nonlinear_arith)
        requires
            s > 0,
            -s < (x * n - y * n) - s * qd < s,
            -s < x * n - s * qx < s,
            -s < y * n - s * qy < s,
    ;
}

/// How far, in squared raw units, rounding can take the sum of the
/// squared velocities of two bodies through an exchange of `q` along a
/// nearly unit normal, where `reach` bounds each component of the
/// relative velocity, `len` is the distance that the normal was made
/// from, and `tol` bounds the error of the exchange in each component.
pub open spec fn energy_tolerance(q: int, reach: int, len: int, tol: int) -> int {
    let size = if q >= 0 {
        q
    } else {
        -q
    };
    2 * ((4 * (q * q)) / (SCALE as int)) + 2 * ((2 * (q * q)) / len) + 6 + 12 * size + 4 * reach
        + 4 * (tol * reach) + 8 * (tol * size) + 4 * (tol * tol)
}

/// The dot product of the exchanged velocity with the relative velocity
/// is the square of the exchange, up to twice its size and the reach of
/// the relative velocity.
proof fn lemma_exchange_against_relative(
    nx: int,
    ny: int,
    q: int,
    rx: int,
    ry: int,
    swx: int,
    swy: int,
    size: int,
    reach: int,
)
    requires
        -SCALE < nx * q - SCALE * swx < SCALE,
        -SCALE < ny * q - SCALE * swy < SCALE,
        -2 * SCALE < rx * nx + ry * ny - SCALE * q < 2 * SCALE,
        size >= 0,
        -size <= q <= size,
        reach >= 0,
        -reach <= rx <= reach,
        -reach <= ry <= reach,
    ensures
        -(2 * size + 2 * reach) <= swx * rx + swy * ry - q * q <= 2 * size + 2 * reach,
{
    let s = SCALE as int;
    let mx = nx * q - s * swx;
    let my = ny * q - s * swy;
    let rho = rx * nx + ry * ny - s * q;
    let x = swx * rx + swy * ry - q * q;
    assert((s * swx) * rx == (nx * q) * rx - mx * rx) by (nonlinear_arith)
        requires
            mx == nx * q - s * swx,
    ;
    assert((s * swy) * ry == (ny * q) * ry - my * ry) by (nonlinear_arith)
        requires
            my == ny * q - s * swy,
    ;
    assert((s * q) * q == (rx * nx) * q + (ry * ny) * q - q * rho) by (nonlinear_arith)
        requires
            rho == rx * nx + ry * ny - s * q,
    ;
    assert((nx * q) * rx == (rx * nx) * q && (ny * q) * ry == (ry * ny) * q) by (nonlinear_arith);
    let along_x = swx * rx;
    let along_y = swy * ry;
    let squared = q * q;
    assert(s * x == s * along_x + s * along_y - s * squared) by (nonlinear_arith)
        requires
            x == along_x + along_y - squared,
    ;
    assert(s * along_x == (s * swx) * rx) by (nonlinear_arith)
        requires
            along_x == swx * rx,
    ;
    assert(s * along_y == (s * swy) * ry) by (nonlinear_arith)
        requires
            along_y == swy * ry,
    ;
    assert(s * squared == (s * q) * q) by (nonlinear_arith)
        requires
            squared == q * q,
    ;
    assert(s * x == q * rho - (mx * rx + my * ry));
    let sz = s * size;
    assert(-(2 * sz) <= q * rho <= 2 * sz) by (nonlinear_arith)
        requires
            -2 * s < rho < 2 * s,
            -size <= q <= size,
            size >= 0,
            s > 0,
            sz == s * size,
    ;
    assert(-(s * reach) <= mx * rx <= s * reach) by (nonlinear_arith)
        requires
            -s < mx < s,
            -reach <= rx <= reach,
            reach >= 0,
            s > 0,
    ;
    assert(-(s * reach) <= my * ry <= s * reach) by (nonlinear_arith)
        requires
            -s < my < s,
            -reach <= ry <= reach,
            reach >= 0,
            s > 0,
    ;
    let sr = s * reach;
    assert(-(2 * sz + 2 * sr) <= s * x <= 2 * sz + 2 * sr);
    assert(-(2 * size + 2 * reach) <= x <= 2 * size + 2 * reach) by (nonlinear_arith)
        requires
            s > 0,
            sz == s * size,
            sr == s * reach,
            -(2 * sz + 2 * sr) <= s * x <= 2 * sz + 2 * sr,
    ;
}

/// The square of the exchanged velocity is the square of the exchange, up
/// to the error of the squared length of the normal and four times the
/// size of the exchange.
proof fn lemma_exchange_squared(
    nx: int,
    ny: int,
    nn: int,
    len: int,
    q: int,
    swx: int,
    swy: int,
    size: int,
)
    requires
        -SCALE <= nx <= SCALE,
        -SCALE <= ny <= SCALE,
        nn == nx * nx + ny * ny,
        len > 0,
        SCALE * SCALE - 4 * SCALE <= nn,
        len * (nn - SCALE * SCALE) <= 2 * (SCALE * SCALE),
        -SCALE < nx * q - SCALE * swx < SCALE,
        -SCALE < ny * q - SCALE * swy < SCALE,
        size >= 0,
        -size <= q <= size,
    ensures
        -((4 * (q * q)) / (SCALE as int) + 1 + 4 * size) <= swx * swx + swy * swy - q * q <= (2 * (q
            * q)) / len + 3 + 4 * size,
{
    let s = SCALE as int;
    let ss = s * s;
    let mx = nx * q - s * swx;
    let my = ny * q - s * swy;
    let qq = q * q;
    let eps = nn - ss;
    let x = swx * swx + swy * swy - qq;
    let nm = nx * mx + ny * my;
    let mm = mx * mx + my * my;
    assert(qq >= 0) by (nonlinear_arith)
        requires
            qq == q * q,
    ;
    let ax = s * swx;
    let ay = s * swy;
    assert(ax * ax == (nx * nx) * qq - 2 * (q * (nx * mx)) + mx * mx) by (nonlinear_arith)
        requires
            ax == nx * q - mx,
            qq == q * q,
    ;
    assert(ay * ay == (ny * ny) * qq - 2 * (q * (ny * my)) + my * my) by (nonlinear_arith)
        requires
            ay == ny * q - my,
            qq == q * q,
    ;
    assert(ss * (swx * swx) == ax * ax && ss * (swy * swy) == ay * ay) by (nonlinear_arith)
        requires
            ax == s * swx,
            ay == s * swy,
            ss == s * s,
    ;
    assert(ss * x == ss * (swx * swx) + ss * (swy * swy) - ss * qq) by (nonlinear_arith)
        requires
            x == swx * swx + swy * swy - qq,
    ;
    assert((nx * nx) * qq + (ny * ny) * qq == nn * qq) by (nonlinear_arith)
        requires
            nn == nx * nx + ny * ny,
    ;
    assert(qq * eps == nn * qq - ss * qq) by (nonlinear_arith)
        requires
            eps == nn - ss,
    ;
    assert(q * nm == q * (nx * mx) + q * (ny * my)) by (nonlinear_arith)
        requires
            nm == nx * mx + ny * my,
    ;
    assert(ss * x == qq * eps - 2 * (q * nm) + mm);
    assert(-(2 * ss) < nm < 2 * ss) by (nonlinear_arith)
        requires
            -s <= nx <= s,
            -s <= ny <= s,
            -s < mx < s,
            -s < my < s,
            s > 0,
            ss == s * s,
            nm == nx * mx + ny * my,
    ;
    assert(0 <= mm < 2 * ss) by (nonlinear_arith)
        requires
            -s < mx < s,
            -s < my < s,
            s > 0,
            ss == s * s,
            mm == mx * mx + my * my,
    ;
    assert(ss > 0) by (nonlinear_arith)
        requires
            ss == s * s,
            s > 0,
    ;
    let sz = ss * size;
    assert(-(2 * sz) <= q * nm <= 2 * sz) by (nonlinear_arith)
        requires
            -(2 * ss) < nm < 2 * ss,
            -size <= q <= size,
            size >= 0,
            ss > 0,
            sz == ss * size,
    ;
    // from below
    let low = (4 * qq) / s;
    assert(4 * qq < s * (low + 1)) by (nonlinear_arith)
        requires
            s > 0,
            low == (4 * qq) / s,
    ;
    assert(qq * eps >= -((4 * s) * qq)) by (nonlinear_arith)
        requires
            eps >= -4 * s,
            qq >= 0,
    ;
    assert((4 * s) * qq <= ss * (low + 1)) by (nonlinear_arith)
        requires
            4 * qq < s * (low + 1),
            s > 0,
            ss == s * s,
    ;
    assert(ss * x >= -(ss * (low + 1)) - 4 * sz);
    assert(x >= -(low + 1 + 4 * size)) by (nonlinear_arith)
        requires
            ss > 0,
            sz == ss * size,
            ss * x >= -(ss * (low + 1)) - 4 * sz,
    ;
    // from above
    let high = (2 * qq) / len;
    assert(2 * qq < len * (high + 1)) by (nonlinear_arith)
        requires
            len > 0,
            high == (2 * qq) / len,
    ;
    assert((qq * eps) * len <= (2 * ss) * qq) by (nonlinear_arith)
        requires
            len * eps <= 2 * ss,
            qq >= 0,
    ;
    assert((2 * ss) * qq <= (ss * len) * (high + 1)) by (nonlinear_arith)
        requires
            2 * qq < len * (high + 1),
            ss > 0,
    ;
    let sl = ss * len;
    assert(sl > 0) by (nonlinear_arith)
        requires
            sl == ss * len,
            ss > 0,
            len > 0,
    ;
    assert((ss * x) * len == sl * x) by (nonlinear_arith)
        requires
            sl == ss * len,
    ;
    assert(ss * x <= qq * eps + 4 * sz + 2 * ss);
    assert((ss * x) * len <= (qq * eps) * len + (4 * sz + 2 * ss) * len) by (nonlinear_arith)
        requires
            len > 0,
            ss * x <= qq * eps + 4 * sz + 2 * ss,
    ;
    assert((4 * sz + 2 * ss) * len == sl * (4 * size + 2)) by (nonlinear_arith)
        requires
            sl == ss * len,
            sz == ss * size,
    ;
    assert(sl * x <= sl * (high + 1) + sl * (4 * size + 2));
    assert(x <= high + 3 + 4 * size) by (nonlinear_arith)
        requires
            sl > 0,
            sl * x <= sl * (high + 1) + sl * (4 * size + 2),
    ;
}

/// An exchange of velocity along a nearly unit normal, between two bodies
/// of equal mass, of the relative normal velocity, leaves the sum of the
/// squared velocities as it was, up to [`energy_tolerance`]: the gain of
/// the one is the loss of the other.
pub proof fn lemma_exchange_keeps_energy(
    nx: int,
    ny: int,
    nn: int,
    len: int,
    q: int,
    rx: int,
    ry: int,
    dx: int,
    dy: int,
    reach: int,
    tol: int,
)
    requires
        -SCALE <= nx <= SCALE,
        -SCALE <= ny <= SCALE,
        nn == nx * nx + ny * ny,
        len > 0,
        SCALE * SCALE - 4 * SCALE <= nn,
        len * (nn - SCALE * SCALE) <= 2 * (SCALE * SCALE),
        -2 * SCALE < rx * nx + ry * ny - SCALE * q < 2 * SCALE,
        reach >= 0,
        -reach <= rx <= reach,
        -reach <= ry <= reach,
        tol >= 0,
        -tol <= dx - quot(nx * q, SCALE as int) <= tol,
        -tol <= dy - quot(ny * q, SCALE as int) <= tol,
    ensures
        ({
            let gain = 2 * (dx * dx + dy * dy) - 2 * (dx * rx + dy * ry);
            -energy_tolerance(q, reach, len, tol) <= gain <= energy_tolerance(q, reach, len, tol)
        }),
{
    let s = SCALE as int;
    let size = if q >= 0 {
        q
    } else {
        -q
    };
    let swx = quot(nx * q, s);
    let swy = quot(ny * q, s);
    lemma_quot_error(nx * q, s);
    lemma_quot_error(ny * q, s);
    lemma_exchange_against_relative(nx, ny, q, rx, ry, swx, swy, size, reach);
    lemma_exchange_squared(nx, ny, nn, len, q, swx, swy, size);
    // the exchanged velocity is no greater than the exchange
    assert(-size <= swx <= size) by (nonlinear_arith)
        requires
            s > 0,
            -s <= nx <= s,
            size >= 0,
            size == q || size == -q,
            -s < nx * q - s * swx < s,
            nx * q >= 0 ==> 0 <= s * swx <= nx * q,
            nx * q <= 0 ==> nx * q <= s * swx <= 0,
    ;
    assert(-size <= swy <= size) by (nonlinear_arith)
        requires
            s > 0,
            -s <= ny <= s,
            size >= 0,
            size == q || size == -q,
            -s < ny * q - s * swy < s,
            ny * q >= 0 ==> 0 <= s * swy <= ny * q,
            ny * q <= 0 ==> ny * q <= s * swy <= 0,
    ;
    let ex = dx - swx;
    let ey = dy - swy;
    let x1 = swx * rx + swy * ry - q * q;
    let x2 = swx * swx + swy * swy - q * q;
    let er = ex * rx + ey * ry;
    let es = swx * ex + swy * ey;
    let ee = ex * ex + ey * ey;
    let gain = 2 * (dx * dx + dy * dy) - 2 * (dx * rx + dy * ry);
    assert(gain == 2 * x2 - 2 * x1 - 2 * er + 4 * es + 2 * ee) by (nonlinear_arith)
        requires
            ex == dx - swx,
            ey == dy - swy,
            x1 == swx * rx + swy * ry - q * q,
            x2 == swx * swx + swy * swy - q * q,
            er == ex * rx + ey * ry,
            es == swx * ex + swy * ey,
            ee == ex * ex + ey * ey,
            gain == 2 * (dx * dx + dy * dy) - 2 * (dx * rx + dy * ry),
    ;
    let tr = tol * reach;
    let ts = tol * size;
    let tt = tol * tol;
    assert(-(2 * tr) <= er <= 2 * tr) by (nonlinear_arith)
        requires
            -tol <= ex <= tol,
            -tol <= ey <= tol,
            -reach <= rx <= reach,
            -reach <= ry <= reach,
            tol >= 0,
            reach >= 0,
            tr == tol * reach,
            er == ex * rx + ey * ry,
    ;
    assert(-(2 * ts) <= es <= 2 * ts) by (nonlinear_arith)
        requires
            -tol <= ex <= tol,
            -tol <= ey <= tol,
            -size <= swx <= size,
            -size <= swy <= size,
            tol >= 0,
            size >= 0,
            ts == tol * size,
            es == swx * ex + swy * ey,
    ;
    assert(0 <= ee <= 2 * tt) by (nonlinear_arith)
        requires
            -tol <= ex <= tol,
            -tol <= ey <= tol,
            tol >= 0,
            tt == tol * tol,
            ee == ex * ex + ey * ey,
    ;
    let qq = q * q;
    let low = (4 * qq) / s;
    let high = (2 * qq) / len;
    assert(low >= 0 && high >= 0) by (nonlinear_arith)
        requires
            s > 0,
            len > 0,
            qq == q * q,
            low == (4 * qq) / s,
            high == (2 * qq) / len,
    ;
    assert(-(low + 1 + 4 * size) <= x2 <= high + 3 + 4 * size);
    assert(-(2 * size + 2 * reach) <= x1 <= 2 * size + 2 * reach);
    assert(energy_tolerance(q, reach, len, tol) == 2 * low + 2 * high + 6 + 12 * size + 4 * reach
        + 4 * tr + 8 * ts + 4 * tt);
}

/// How far, in raw units, rounding can take a point that was moved by `q`
/// along the normal of a segment of length `len` from where it should be.
pub open spec fn shift_tolerance(q: int, len: int) -> int {
    let size = if q >= 0 {
        q
    } else {
        -q
    };
    8 + (4 * size) / (SCALE as int) + (2 * size) / len
}

/// Moving a point by `q` along the rounded unit normal of a segment moves
/// it by `q` away from the line of the segment, up to
/// [`shift_tolerance`].
pub proof fn lemma_shift_is_nearly_exact(nn: int, len: int, q: int, d: int)
    requires
        len > 0,
        SCALE * SCALE - 4 * SCALE <= nn,
        len * (nn - SCALE * SCALE) <= 2 * (SCALE * SCALE),
        -6 * (SCALE * SCALE) < (SCALE * SCALE) * d - nn * q < 6 * (SCALE * SCALE),
    ensures
        -shift_tolerance(q, len) <= d - q <= shift_tolerance(q, len),
{
    let s = SCALE as int;
    let ss = s * s;
    let size = if q >= 0 {
        q
    } else {
        -q
    };
    let a = (4 * size) / s;
    let b = (2 * size) / len;
    let eps = nn - ss;
    let e = d - q;
    let sl = ss * len;
    let p = (4 * s) * (size * len);
    let r = (2 * ss) * size;
    assert(ss > 0 && sl > 0) by (nonlinear_arith)
        requires
            ss == s * s,
            sl == ss * len,
            s > 0,
            len > 0,
    ;
    // the error of the squared length, times the shift, is small
    let x = (eps * q) * len;
    assert(-(p + r) <= x <= p + r) by {
        assert(x == (len * eps) * q && x == (eps * len) * q) by (nonlinear_arith)
            requires
                x == (eps * q) * len,
        ;
        if q >= 0 {
            assert((len * eps) * q <= (2 * ss) * q) by (nonlinear_arith)
                requires
                    len * eps <= 2 * ss,
                    q >= 0,
            ;
            assert((eps * len) * q >= ((-4 * s) * len) * q) by (nonlinear_arith)
                requires
                    eps >= -4 * s,
                    len > 0,
                    q >= 0,
            ;
            assert(((-4 * s) * len) * q == -((4 * s) * (q * len))) by (nonlinear_arith);
        } else {
            assert((len * eps) * q >= (2 * ss) * q) by (nonlinear_arith)
                requires
                    len * eps <= 2 * ss,
                    q <= 0,
            ;
            assert((eps * len) * q <= ((-4 * s) * len) * q) by (nonlinear_arith)
                requires
                    eps >= -4 * s,
                    len > 0,
                    q <= 0,
            ;
            assert(((-4 * s) * len) * q == (4 * s) * ((-q) * len)) by (nonlinear_arith);
            assert((2 * ss) * q == -((2 * ss) * (-q))) by (nonlinear_arith);
        }
    }
    assert(ss * d - nn * q == ss * e - eps * q) by (nonlinear_arith)
        requires
            e == d - q,
            eps == nn - ss,
    ;
    let y = ss * e - eps * q;
    assert(-(6 * sl) < y * len < 6 * sl) by (nonlinear_arith)
        requires
            len > 0,
            sl == ss * len,
            -6 * ss < y < 6 * ss,
    ;
    assert(y * len == sl * e - x) by (nonlinear_arith)
        requires
            y == ss * e - eps * q,
            sl == ss * len,
            x == (eps * q) * len,
    ;
    assert(-(6 * sl + p + r) < sl * e < 6 * sl + p + r);
    assert(4 * size < s * (a + 1)) by (nonlinear_arith)
        requires
            s > 0,
            a == (4 * size) / s,
    ;
    assert(2 * size < len * (b + 1)) by (nonlinear_arith)
        requires
            len > 0,
            b == (2 * size) / len,
    ;
    assert(p <= sl * (a + 1)) by (nonlinear_arith)
        requires
            4 * size < s * (a + 1),
            s > 0,
            len > 0,
            ss == s * s,
            sl == ss * len,
            p == (4 * s) * (size * len),
    ;
    assert(r <= sl * (b + 1)) by (nonlinear_arith)
        requires
            2 * size < len * (b + 1),
            ss > 0,
            sl == ss * len,
            r == (2 * ss) * size,
    ;
    assert(sl * (a + 1) + sl * (b + 1) + 6 * sl == sl * (8 + a + b)) by (nonlinear_arith);
    assert(-(8 + a + b) <= e <= 8 + a + b) by (nonlinear_arith)
        requires
            sl > 0,
            -(sl * (8 + a + b)) < sl * e < sl * (8 + a + b),
    ;
}

} // verus!
