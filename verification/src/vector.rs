//! Points and force vectors on the bounded world plane.

use crate::fixed::{ceil_sqrt, clamp_int, div_away, div_trunc, floor_sqrt, sqrt_ceil, sqrt_floor};
use vstd::prelude::*;

verus! {

/// The number of stored integers that make one world unit: coordinates count
/// millionths.
pub const UNIT: i64 = 1_000_000;

/// No coordinate lies farther from the origin than this: a million world units.
pub const COORD_LIMIT: i64 = 1_000_000_000_000;

/// Lengths are taken with this many more parts to the millionth before a vector
/// is divided by its length.
pub const ROOT_SCALE: u64 = 1_000_000;

/// A coordinate held inside the world.
pub open spec fn clamp_coord(v: int) -> int {
    clamp_int(v, -(COORD_LIMIT as int), COORD_LIMIT as int)
}

/// Both coordinates held inside the world.
pub open spec fn clamp_point(p: (int, int)) -> (int, int) {
    (clamp_coord(p.0), clamp_coord(p.1))
}

/// Both coordinates lie inside the world.
pub open spec fn in_world(p: (int, int)) -> bool {
    &&& -COORD_LIMIT <= p.0 <= COORD_LIMIT
    &&& -COORD_LIMIT <= p.1 <= COORD_LIMIT
}

/// Squared Euclidean length.
pub open spec fn norm_sq(p: (int, int)) -> int {
    p.0 * p.0 + p.1 * p.1
}

/// The step that leads from `a` to `b`.
pub open spec fn step_between(a: (int, int), b: (int, int)) -> (int, int) {
    (b.0 - a.0, b.1 - a.1)
}

/// Inner product.
pub open spec fn dot(a: (int, int), b: (int, int)) -> int {
    a.0 * b.0 + a.1 * b.1
}

/// Squared Euclidean distance.
pub open spec fn dist_sq(a: (int, int), b: (int, int)) -> int {
    norm_sq(step_between(a, b))
}

/// Sum of two vectors; a coordinate that would leave the world stops at its edge.
pub open spec fn point_plus(a: (int, int), b: (int, int)) -> (int, int) {
    (clamp_coord(a.0 + b.0), clamp_coord(a.1 + b.1))
}

/// The vector times `num / den`, each coordinate rounded toward zero.
pub open spec fn point_scaled(p: (int, int), num: int, den: int) -> (int, int) {
    (clamp_coord(div_trunc(p.0 * num, den)), clamp_coord(div_trunc(p.1 * num, den)))
}

/// The opposite vector.
pub open spec fn point_negated(p: (int, int)) -> (int, int) {
    (-p.0, -p.1)
}

/// The vector counted in parts of `ROOT_SCALE` to the millionth.
pub open spec fn refined(p: (int, int)) -> (int, int) {
    (p.0 * ROOT_SCALE, p.1 * ROOT_SCALE)
}

/// The direction of `q` at the length `max`: `q` times `max` over its length,
/// the length rounded up and each coordinate rounded toward zero, so that the
/// result is never longer than `max`.
pub open spec fn shrunk(q: (int, int), max: int) -> (int, int) {
    let s = sqrt_ceil(norm_sq(q) as nat) as int;
    (div_trunc(q.0 * max, s), div_trunc(q.1 * max, s))
}

/// The direction of `q` at the length `min`: `q` times `min` over its length,
/// the length rounded down and each coordinate rounded away from zero, so that
/// the result is never shorter than `min`.
pub open spec fn stretched(q: (int, int), min: int) -> (int, int) {
    let r = sqrt_floor(norm_sq(q) as nat) as int;
    (div_away(q.0 * min, r), div_away(q.1 * min, r))
}

/// The vector shortened to length `max` where it is longer, and kept otherwise.
/// The length by which it is divided is taken of the refined vector, so that the
/// result is short of `max` by a millionth of a unit or so at most.
pub open spec fn capped(p: (int, int), max: int) -> (int, int) {
    if norm_sq(p) > max * max {
        clamp_point(shrunk(refined(p), max))
    } else {
        clamp_point(p)
    }
}

/// The vector stretched to length `min` where it is shorter, shortened to `max`
/// where it is longer, and kept otherwise.  The zero vector has no direction and
/// is kept.
pub open spec fn banded(p: (int, int), min: int, max: int) -> (int, int) {
    if 0 < norm_sq(p) < min * min {
        clamp_point(stretched(refined(p), min))
    } else {
        capped(p, max)
    }
}

/// A point of the world, or a force; both coordinates in millionths of a unit.
#[derive(Clone, Copy, Debug)]
pub struct Vec2 {
    x: i64,
    y: i64,
}

impl View for Vec2 {
    type V = (int, int);

    closed spec fn view(&self) -> (int, int) {
        (self.x as int, self.y as int)
    }
}

fn clamp_wide(v: i128) -> (r: i64)
    ensures
        r == clamp_coord(v as int),
{
    if v < -(COORD_LIMIT as i128) {
        -COORD_LIMIT
    } else if v > COORD_LIMIT as i128 {
        COORD_LIMIT
    } else {
        v as i64
    }
}

fn div_trunc_wide(a: i128, b: i128) -> (q: i128)
    requires
        b > 0,
        a > i128::MIN,
    ensures
        q == div_trunc(a as int, b as int),
{
    if a >= 0 {
        a / b
    } else {
        let m: i128 = -a;
        let q: i128 = m / b;
        -q
    }
}

fn div_away_wide(a: i128, b: i128) -> (q: i128)
    requires
        b > 0,
        -0x4000_0000_0000_0000_0000_0000_0000_0000 < a < 0x4000_0000_0000_0000_0000_0000_0000_0000,
        b < 0x4000_0000_0000_0000_0000_0000_0000_0000,
    ensures
        q == div_away(a as int, b as int),
{
    if a >= 0 {
        (a + b - 1) / b
    } else {
        let m: i128 = -a;
        let q: i128 = (m + b - 1) / b;
        -q
    }
}

fn square_sum(dx: i64, dy: i64) -> (n: u128)
    requires
        -2 * COORD_LIMIT <= dx <= 2 * COORD_LIMIT,
        -2 * COORD_LIMIT <= dy <= 2 * COORD_LIMIT,
    ensures
        n == norm_sq((dx as int, dy as int)),
        n <= 8_000_000_000_000_000_000_000_000,
{
    assert(0 <= dx * dx <= 4_000_000_000_000_000_000_000_000) by (nonlinear_arith)
        requires
            -2_000_000_000_000 <= dx <= 2_000_000_000_000,
    ;
    assert(0 <= dy * dy <= 4_000_000_000_000_000_000_000_000) by (nonlinear_arith)
        requires
            -2_000_000_000_000 <= dy <= 2_000_000_000_000,
    ;
    let a: i128 = (dx as i128) * (dx as i128);
    let b: i128 = (dy as i128) * (dy as i128);
    a as u128 + b as u128
}

/// The squared length of the refined vector.
fn refined_square_sum(dx: i64, dy: i64, n: u128) -> (fine: u128)
    requires
        n == norm_sq((dx as int, dy as int)),
        n <= 8_000_000_000_000_000_000_000_000,
    ensures
        fine == norm_sq(refined((dx as int, dy as int))),
        n > 0 ==> fine > 0,
{
    assert(n * 1_000_000_000_000 <= 8_000_000_000_000_000_000_000_000_000_000_000_000
        && (n > 0 ==> n * 1_000_000_000_000 > 0) && (dx * 1_000_000) * (dx * 1_000_000) + (dy
        * 1_000_000) * (dy * 1_000_000) == n * 1_000_000_000_000) by (nonlinear_arith)
        requires
            0 <= n <= 8_000_000_000_000_000_000_000_000,
            n == dx * dx + dy * dy,
    ;
    n * 1_000_000_000_000
}

/// One coordinate times `ROOT_SCALE` times `factor`.
fn refined_times(c: i64, factor: u64) -> (product: i128)
    requires
        -2 * COORD_LIMIT <= c <= 2 * COORD_LIMIT,
    ensures
        product == (c * ROOT_SCALE) * factor,
        -0x2000_0000_0000_0000_0000_0000_0000_0000 < product
            < 0x2000_0000_0000_0000_0000_0000_0000_0000,
{
    let fine: i128 = (c as i128) * 1_000_000;
    assert(-0x2000_0000_0000_0000_0000_0000_0000_0000 < fine * factor
        < 0x2000_0000_0000_0000_0000_0000_0000_0000) by (nonlinear_arith)
        requires
            -2_000_000_000_000_000_000 <= fine <= 2_000_000_000_000_000_000,
            0 <= factor <= 0xFFFF_FFFF_FFFF_FFFF,
    ;
    fine * (factor as i128)
}

fn cap_step(dx: i64, dy: i64, max: u64) -> (v: Vec2)
    requires
        -2 * COORD_LIMIT <= dx <= 2 * COORD_LIMIT,
        -2 * COORD_LIMIT <= dy <= 2 * COORD_LIMIT,
    ensures
        v@ == capped((dx as int, dy as int), max as int),
{
    let n: u128 = square_sum(dx, dy);
    let m: u128 = max as u128;
    assert(m * m <= 0xFFFF_FFFF_FFFF_FFFF * 0xFFFF_FFFF_FFFF_FFFF) by (nonlinear_arith)
        requires
            m <= 0xFFFF_FFFF_FFFF_FFFF,
    ;
    if n > m * m {
        let fine: u128 = refined_square_sum(dx, dy, n);
        let s: u128 = ceil_sqrt(fine);
        proof {
            crate::fixed::lemma_sqrt_ceil_brackets(fine as nat);
        }
        let cx: i128 = div_trunc_wide(refined_times(dx, max), s as i128);
        let cy: i128 = div_trunc_wide(refined_times(dy, max), s as i128);
        Vec2 { x: clamp_wide(cx), y: clamp_wide(cy) }
    } else {
        Vec2 { x: clamp_wide(dx as i128), y: clamp_wide(dy as i128) }
    }
}

impl Vec2 {
    #[verifier::type_invariant]
    spec fn inside(self) -> bool {
        in_world(self@)
    }

    /// The vector `(x, y)`, each coordinate held inside the world.
    pub fn new(x: i64, y: i64) -> (v: Vec2)
        ensures
            v@ == (clamp_coord(x as int), clamp_coord(y as int)),
    {
        Vec2 { x: clamp_wide(x as i128), y: clamp_wide(y as i128) }
    }

    /// The origin, which is also the null force.
    pub fn zero() -> (v: Vec2)
        ensures
            v@ == (0int, 0int),
    {
        Vec2 { x: 0, y: 0 }
    }

    /// First coordinate.
    pub fn x(&self) -> (r: i64)
        ensures
            r == self@.0,
            -COORD_LIMIT <= r <= COORD_LIMIT,
    {
        proof {
            use_type_invariant(self);
        }
        self.x
    }

    /// Second coordinate.
    pub fn y(&self) -> (r: i64)
        ensures
            r == self@.1,
            -COORD_LIMIT <= r <= COORD_LIMIT,
    {
        proof {
            use_type_invariant(self);
        }
        self.y
    }

    /// Whether both coordinates are zero.
    pub fn is_zero(&self) -> (r: bool)
        ensures
            r == (self@ == (0int, 0int)),
    {
        self.x == 0 && self.y == 0
    }

    /// Sum of two vectors, stopping at the edge of the world.
    pub fn plus(self, other: Vec2) -> (v: Vec2)
        ensures
            v@ == point_plus(self@, other@),
            in_world(self@),
            in_world(other@),
    {
        proof {
            use_type_invariant(&self);
            use_type_invariant(&other);
        }
        Vec2 {
            x: clamp_wide(self.x as i128 + other.x as i128),
            y: clamp_wide(self.y as i128 + other.y as i128),
        }
    }

    /// The opposite vector.
    pub fn negated(self) -> (v: Vec2)
        ensures
            v@ == point_negated(self@),
    {
        proof {
            use_type_invariant(&self);
        }
        Vec2 { x: -self.x, y: -self.y }
    }

    /// The vector times `num / den`, each coordinate rounded toward zero and held
    /// inside the world.
    pub fn scaled(self, num: u64, den: u64) -> (v: Vec2)
        requires
            den > 0,
        ensures
            v@ == point_scaled(self@, num as int, den as int),
    {
        proof {
            use_type_invariant(&self);
        }
        let wn: i128 = num as i128;
        let wd: i128 = den as i128;
        assert(-0x7FFF_FFFF_FFFF_FFFF_FFFF_FFFF_FFFF <= self.x * wn
            <= 0x7FFF_FFFF_FFFF_FFFF_FFFF_FFFF_FFFF) by (nonlinear_arith)
            requires
                -1_000_000_000_000 <= self.x <= 1_000_000_000_000,
                0 <= wn <= 0xFFFF_FFFF_FFFF_FFFF,
        ;
        assert(-0x7FFF_FFFF_FFFF_FFFF_FFFF_FFFF_FFFF <= self.y * wn
            <= 0x7FFF_FFFF_FFFF_FFFF_FFFF_FFFF_FFFF) by (nonlinear_arith)
            requires
                -1_000_000_000_000 <= self.y <= 1_000_000_000_000,
                0 <= wn <= 0xFFFF_FFFF_FFFF_FFFF,
        ;
        let cx: i128 = div_trunc_wide((self.x as i128) * wn, wd);
        let cy: i128 = div_trunc_wide((self.y as i128) * wn, wd);
        Vec2 { x: clamp_wide(cx), y: clamp_wide(cy) }
    }

    /// `scaled` for a short vector and a factor that is itself a product.
    pub(crate) fn scaled_wide(self, num: u128, den: u128) -> (v: Vec2)
        requires
            0 < den <= 0xFFFF_FFFF_FFFF_FFFF,
            num <= 0xFFFF_FFFF_FFFF_FFFF_FFFF_FFFF,
            -0x4000_0000 <= self@.0 <= 0x4000_0000,
            -0x4000_0000 <= self@.1 <= 0x4000_0000,
        ensures
            v@ == point_scaled(self@, num as int, den as int),
    {
        let wn: i128 = num as i128;
        let wd: i128 = den as i128;
        assert(-0x7FFF_FFFF_FFFF_FFFF_FFFF_FFFF_FFFF_FFFF <= self.x * wn
            <= 0x7FFF_FFFF_FFFF_FFFF_FFFF_FFFF_FFFF_FFFF) by (nonlinear_arith)
            requires
                -0x4000_0000 <= self.x <= 0x4000_0000,
                0 <= wn <= 0xFFFF_FFFF_FFFF_FFFF_FFFF_FFFF,
        ;
        assert(-0x7FFF_FFFF_FFFF_FFFF_FFFF_FFFF_FFFF_FFFF <= self.y * wn
            <= 0x7FFF_FFFF_FFFF_FFFF_FFFF_FFFF_FFFF_FFFF) by (nonlinear_arith)
            requires
                -0x4000_0000 <= self.y <= 0x4000_0000,
                0 <= wn <= 0xFFFF_FFFF_FFFF_FFFF_FFFF_FFFF,
        ;
        let cx: i128 = div_trunc_wide((self.x as i128) * wn, wd);
        let cy: i128 = div_trunc_wide((self.y as i128) * wn, wd);
        Vec2 { x: clamp_wide(cx), y: clamp_wide(cy) }
    }

    /// Squared length.
    pub fn length_squared(&self) -> (n: u128)
        ensures
            n == norm_sq(self@),
    {
        proof {
            use_type_invariant(self);
        }
        square_sum(self.x, self.y)
    }

    /// Squared distance to `other`.
    pub fn distance_squared(&self, other: &Vec2) -> (n: u128)
        ensures
            n == dist_sq(self@, other@),
    {
        proof {
            use_type_invariant(self);
            use_type_invariant(other);
        }
        square_sum(other.x - self.x, other.y - self.y)
    }

    /// The step from here to `dest`, shortened to `max` where it is longer.
    pub fn step_toward(&self, dest: &Vec2, max: u64) -> (v: Vec2)
        ensures
            v@ == capped(step_between(self@, dest@), max as int),
    {
        proof {
            use_type_invariant(self);
            use_type_invariant(dest);
        }
        cap_step(dest.x - self.x, dest.y - self.y, max)
    }

    /// The vector shortened to length `max` where it is longer.
    pub fn clamp_length_max(self, max: u64) -> (v: Vec2)
        ensures
            v@ == capped(self@, max as int),
    {
        proof {
            use_type_invariant(&self);
        }
        cap_step(self.x, self.y, max)
    }

    /// The vector brought to a length between `min` and `max`; see [`banded`].
    pub fn clamp_length(self, min: u64, max: u64) -> (v: Vec2)
        ensures
            v@ == banded(self@, min as int, max as int),
    {
        proof {
            use_type_invariant(&self);
        }
        let n: u128 = square_sum(self.x, self.y);
        let m: u128 = min as u128;
        assert(m * m <= 0xFFFF_FFFF_FFFF_FFFF * 0xFFFF_FFFF_FFFF_FFFF) by (nonlinear_arith)
            requires
                m <= 0xFFFF_FFFF_FFFF_FFFF,
        ;
        if 0 < n && n < m * m {
            let fine: u128 = refined_square_sum(self.x, self.y, n);
            let r: u128 = floor_sqrt(fine);
            proof {
                crate::fixed::lemma_sqrt_floor_brackets(fine as nat);
                assert(r >= 1) by (nonlinear_arith)
                    requires
                        fine < (r + 1) * (r + 1),
                        fine >= 1,
                        r >= 0,
                ;
            }
            let cx: i128 = div_away_wide(refined_times(self.x, min), r as i128);
            let cy: i128 = div_away_wide(refined_times(self.y, min), r as i128);
            Vec2 { x: clamp_wide(cx), y: clamp_wide(cy) }
        } else {
            cap_step(self.x, self.y, max)
        }
    }
}

impl Default for Vec2 {
    fn default() -> (v: Vec2)
        ensures
            v@ == (0int, 0int),
    {
        Vec2::zero()
    }
}

/// Magnitude of an integer.
pub open spec fn abs_int(v: int) -> int {
    if v < 0 {
        -v
    } else {
        v
    }
}

/// A quotient rounded down, times the divisor, falls short of the dividend by
/// less than the divisor.
pub proof fn lemma_floor_div(x: int, d: int)
    requires
        x >= 0,
        d > 0,
    ensures
        0 <= x / d,
        (x / d) * d <= x,
        x < (x / d) * d + d,
{
    vstd::arithmetic::div_mod::lemma_fundamental_div_mod(x, d);
    vstd::arithmetic::div_mod::lemma_mod_bound(x, d);
    vstd::arithmetic::div_mod::lemma_div_pos_is_pos(x, d);
    assert(d * (x / d) == (x / d) * d) by (nonlinear_arith);
}

proof fn lemma_square_le(a: int, b: int)
    requires
        0 <= a <= b,
    ensures
        a * a <= b * b,
{
    assert(a * a <= b * b) by (nonlinear_arith)
        requires
            0 <= a <= b,
    ;
}

/// A square is the square of the magnitude.
pub proof fn lemma_square_abs(v: int)
    ensures
        v * v == abs_int(v) * abs_int(v),
        v * v >= 0,
        v != 0 ==> v * v >= 1,
{
    assert(v * v == abs_int(v) * abs_int(v) && v * v >= 0 && (v != 0 ==> v * v >= 1))
        by (nonlinear_arith)
        requires
            abs_int(v) == v || abs_int(v) == -v,
    ;
}

/// Of two numbers that are not negative, the one with the smaller square is the
/// smaller.
pub proof fn lemma_root_le(a: int, b: int)
    requires
        0 <= a,
        0 <= b,
        a * a <= b * b,
    ensures
        a <= b,
{
    if a > b {
        assert((b + 1) * (b + 1) <= a * a) by (nonlinear_arith)
            requires
                0 <= b,
                b + 1 <= a,
        ;
        assert(b * b < (b + 1) * (b + 1)) by (nonlinear_arith)
            requires
                0 <= b,
        ;
    }
}

/// Of two numbers that are not negative, the one with the strictly smaller
/// square is strictly smaller.
pub proof fn lemma_root_lt(a: int, b: int)
    requires
        0 <= a,
        0 <= b,
        a * a < b * b,
    ensures
        a < b,
{
    if a >= b {
        lemma_square_le(b, a);
    }
}

/// The magnitude of a quotient rounded toward zero is the quotient of the
/// magnitudes, rounded down.
pub proof fn lemma_div_trunc_abs(c: int, k: int, d: int)
    requires
        k >= 0,
        d > 0,
    ensures
        abs_int(div_trunc(c * k, d)) == (abs_int(c) * k) / d,
        abs_int(c) * k >= 0,
{
    assert(abs_int(c) * k >= 0 && (c >= 0 ==> c * k >= 0 && c * k == abs_int(c) * k) && (c < 0 ==> c
        * k <= 0 && -(c * k) == abs_int(c) * k)) by (nonlinear_arith)
        requires
            k >= 0,
            abs_int(c) >= 0,
            abs_int(c) == c || abs_int(c) == -c,
            c < 0 ==> abs_int(c) == -c,
            c >= 0 ==> abs_int(c) == c,
    ;
    lemma_floor_div(abs_int(c) * k, d);
}

proof fn lemma_div_away_abs(c: int, k: int, d: int)
    requires
        k >= 0,
        d > 0,
    ensures
        abs_int(div_away(c * k, d)) == (abs_int(c) * k + d - 1) / d,
        abs_int(c) * k >= 0,
{
    assert(abs_int(c) * k >= 0 && (c >= 0 ==> c * k >= 0 && c * k == abs_int(c) * k) && (c < 0 ==> c
        * k <= 0 && -(c * k) == abs_int(c) * k)) by (nonlinear_arith)
        requires
            k >= 0,
            abs_int(c) >= 0,
            abs_int(c) == c || abs_int(c) == -c,
            c < 0 ==> abs_int(c) == -c,
            c >= 0 ==> abs_int(c) == c,
    ;
    lemma_floor_div(abs_int(c) * k + d - 1, d);
}

proof fn lemma_clamp_coord_abs(v: int)
    ensures
        abs_int(clamp_coord(v)) <= abs_int(v),
        abs_int(v) <= COORD_LIMIT ==> clamp_coord(v) == v,
{
}

/// Holding each coordinate inside the world never lengthens a vector.
pub proof fn lemma_clamp_shortens(p: (int, int))
    ensures
        norm_sq((clamp_coord(p.0), clamp_coord(p.1))) <= norm_sq(p),
{
    lemma_clamp_coord_abs(p.0);
    lemma_clamp_coord_abs(p.1);
    lemma_square_abs(p.0);
    lemma_square_abs(p.1);
    lemma_square_abs(clamp_coord(p.0));
    lemma_square_abs(clamp_coord(p.1));
    lemma_square_le(abs_int(clamp_coord(p.0)), abs_int(p.0));
    lemma_square_le(abs_int(clamp_coord(p.1)), abs_int(p.1));
}

proof fn lemma_product_square(a: int, b: int)
    ensures
        (a * b) * (a * b) == (a * a) * (b * b),
{
    assert((a * b) * (a * b) == (a * a) * (b * b)) by (nonlinear_arith);
}

proof fn lemma_cancel_le(p: int, m: int, s: int)
    requires
        s > 0,
        p * s <= m * s,
    ensures
        p <= m,
{
    assert(p <= m) by (nonlinear_arith)
        requires
            s > 0,
            p * s <= m * s,
    ;
}

proof fn lemma_shrunk_sum(a: int, b: int, ca: int, cb: int, s: int, max: int)
    requires
        0 <= a,
        0 <= b,
        0 <= ca,
        0 <= cb,
        0 <= max,
        s > 0,
        a * s <= ca * max,
        b * s <= cb * max,
        ca * ca + cb * cb <= s * s,
    ensures
        a * a + b * b <= max * max,
{
    assert(0 <= a * s && 0 <= b * s) by (nonlinear_arith)
        requires
            0 <= a,
            0 <= b,
            s > 0,
    ;
    lemma_square_le(a * s, ca * max);
    lemma_square_le(b * s, cb * max);
    lemma_product_square(a, s);
    lemma_product_square(b, s);
    lemma_product_square(ca, max);
    lemma_product_square(cb, max);
    let ss = s * s;
    let mm = max * max;
    assert(ss > 0) by (nonlinear_arith)
        requires
            s > 0,
            ss == s * s,
    ;
    assert(mm >= 0) by (nonlinear_arith)
        requires
            mm == max * max,
    ;
    assert((a * a + b * b) * ss == (a * a) * ss + (b * b) * ss) by (nonlinear_arith);
    assert((ca * ca + cb * cb) * mm == (ca * ca) * mm + (cb * cb) * mm) by (nonlinear_arith);
    assert((ca * ca + cb * cb) * mm <= ss * mm) by (nonlinear_arith)
        requires
            ca * ca + cb * cb <= ss,
            mm >= 0,
    ;
    assert(ss * mm == mm * ss) by (nonlinear_arith);
    lemma_cancel_le(a * a + b * b, mm, ss);
}

proof fn lemma_stretched_sum(a: int, b: int, ca: int, cb: int, r: int, min: int)
    requires
        0 <= a,
        0 <= b,
        0 <= ca,
        0 <= cb,
        0 <= min,
        r > 0,
        a * r >= ca * min,
        b * r >= cb * min,
        ca * ca + cb * cb >= r * r,
    ensures
        a * a + b * b >= min * min,
{
    assert(0 <= ca * min && 0 <= cb * min) by (nonlinear_arith)
        requires
            0 <= ca,
            0 <= cb,
            0 <= min,
    ;
    lemma_square_le(ca * min, a * r);
    lemma_square_le(cb * min, b * r);
    lemma_product_square(a, r);
    lemma_product_square(b, r);
    lemma_product_square(ca, min);
    lemma_product_square(cb, min);
    let rr = r * r;
    let mm = min * min;
    assert(rr > 0) by (nonlinear_arith)
        requires
            r > 0,
            rr == r * r,
    ;
    assert(mm >= 0) by (nonlinear_arith)
        requires
            mm == min * min,
    ;
    assert((a * a + b * b) * rr == (a * a) * rr + (b * b) * rr) by (nonlinear_arith);
    assert((ca * ca + cb * cb) * mm == (ca * ca) * mm + (cb * cb) * mm) by (nonlinear_arith);
    assert((ca * ca + cb * cb) * mm >= rr * mm) by (nonlinear_arith)
        requires
            ca * ca + cb * cb >= rr,
            mm >= 0,
    ;
    assert(rr * mm == mm * rr) by (nonlinear_arith);
    lemma_cancel_le(mm, a * a + b * b, rr);
}

/// Rounded up, `c * min / r` is at most `min` when `c` is at most `r`.
proof fn lemma_stretched_coord(c: int, r: int, min: int)
    requires
        0 <= c <= r,
        r > 0,
        min >= 0,
    ensures
        0 <= (c * min + r - 1) / r <= min,
        ((c * min + r - 1) / r) * r >= c * min,
{
    assert(0 <= c * min <= r * min) by (nonlinear_arith)
        requires
            0 <= c <= r,
            min >= 0,
    ;
    let q = (c * min + r - 1) / r;
    lemma_floor_div(c * min + r - 1, r);
    if q > min {
        assert(q * r >= (min + 1) * r) by (nonlinear_arith)
            requires
                q >= min + 1,
                r > 0,
        ;
        assert((min + 1) * r == r * min + r) by (nonlinear_arith);
    }
}

/// Rounded down, `c * max / s` is at least `min` when `2c >= s` and `max >= 2 min`.
proof fn lemma_shrunk_coord(c: int, s: int, min: int, max: int)
    requires
        s > 0,
        2 * c >= s,
        min >= 0,
        max >= 2 * min,
    ensures
        (c * max) / s >= min,
{
    assert(c * max >= s * min) by (nonlinear_arith)
        requires
            s > 0,
            2 * c >= s,
            min >= 0,
            max >= 2 * min,
    ;
    let q = (c * max) / s;
    lemma_floor_div(c * max, s);
    if q < min {
        assert(q * s + s <= min * s) by (nonlinear_arith)
            requires
                q + 1 <= min,
                s > 0,
        ;
        assert(min * s == s * min) by (nonlinear_arith);
    }
}

/// The longer coordinate of a vector is at least half its length rounded up.
proof fn lemma_longer_half(ca: int, cb: int, s: int)
    requires
        0 <= cb <= ca,
        s >= 1,
        (s - 1) * (s - 1) < ca * ca + cb * cb,
    ensures
        2 * ca >= s,
{
    lemma_square_le(cb, ca);
    assert((2 * ca) * (2 * ca) >= s * s) by (nonlinear_arith)
        requires
            (s - 1) * (s - 1) + 1 <= 2 * (ca * ca),
    ;
    lemma_root_le(s, 2 * ca);
}

/// A vector shrunk to `max` is never longer than `max`.
pub proof fn lemma_shrunk_within(q: (int, int), max: int)
    requires
        max >= 0,
        norm_sq(q) > 0,
    ensures
        norm_sq(shrunk(q, max)) <= max * max,
        abs_int(shrunk(q, max).0) <= max,
        abs_int(shrunk(q, max).1) <= max,
{
    let n = norm_sq(q);
    lemma_square_abs(q.0);
    lemma_square_abs(q.1);
    let s = sqrt_ceil(n as nat) as int;
    crate::fixed::lemma_sqrt_ceil_brackets(n as nat);
    let t = shrunk(q, max);
    lemma_div_trunc_abs(q.0, max, s);
    lemma_div_trunc_abs(q.1, max, s);
    lemma_floor_div(abs_int(q.0) * max, s);
    lemma_floor_div(abs_int(q.1) * max, s);
    lemma_shrunk_sum(abs_int(t.0), abs_int(t.1), abs_int(q.0), abs_int(q.1), s, max);
    lemma_square_abs(t.0);
    lemma_square_abs(t.1);
    lemma_square_le(0, abs_int(t.0));
    lemma_square_le(0, abs_int(t.1));
    lemma_root_le(abs_int(t.0), max);
    lemma_root_le(abs_int(t.1), max);
}

/// A vector shrunk to `max` is at least half of `max` long.
pub proof fn lemma_shrunk_reaches(q: (int, int), min: int, max: int)
    requires
        norm_sq(q) > 0,
        0 <= min,
        2 * min <= max,
    ensures
        min * min <= norm_sq(shrunk(q, max)),
{
    let n = norm_sq(q);
    let ca = abs_int(q.0);
    let cb = abs_int(q.1);
    lemma_square_abs(q.0);
    lemma_square_abs(q.1);
    let s = sqrt_ceil(n as nat) as int;
    crate::fixed::lemma_sqrt_ceil_brackets(n as nat);
    let t = shrunk(q, max);
    lemma_div_trunc_abs(q.0, max, s);
    lemma_div_trunc_abs(q.1, max, s);
    lemma_square_abs(t.0);
    lemma_square_abs(t.1);
    if ca >= cb {
        lemma_longer_half(ca, cb, s);
        lemma_shrunk_coord(ca, s, min, max);
        lemma_square_le(min, abs_int(t.0));
    } else {
        lemma_longer_half(cb, ca, s);
        lemma_shrunk_coord(cb, s, min, max);
        lemma_square_le(min, abs_int(t.1));
    }
}

/// A vector stretched to `min` is at least `min` long, and neither coordinate
/// exceeds `min`.
pub proof fn lemma_stretched_reaches(q: (int, int), min: int)
    requires
        norm_sq(q) > 0,
        0 <= min,
    ensures
        min * min <= norm_sq(stretched(q, min)),
        norm_sq(stretched(q, min)) <= 2 * (min * min),
        abs_int(stretched(q, min).0) <= min,
        abs_int(stretched(q, min).1) <= min,
{
    let n = norm_sq(q);
    let ca = abs_int(q.0);
    let cb = abs_int(q.1);
    lemma_square_abs(q.0);
    lemma_square_abs(q.1);
    let r = sqrt_floor(n as nat) as int;
    crate::fixed::lemma_sqrt_floor_brackets(n as nat);
    assert(r >= 1) by (nonlinear_arith)
        requires
            n < (r + 1) * (r + 1),
            n >= 1,
            r >= 0,
    ;
    let t = stretched(q, min);
    lemma_div_away_abs(q.0, min, r);
    lemma_div_away_abs(q.1, min, r);
    lemma_square_le(0, cb);
    lemma_square_le(0, ca);
    lemma_root_lt(ca, r + 1);
    lemma_root_lt(cb, r + 1);
    lemma_stretched_coord(ca, r, min);
    lemma_stretched_coord(cb, r, min);
    let a = abs_int(t.0);
    let b = abs_int(t.1);
    lemma_stretched_sum(a, b, ca, cb, r, min);
    lemma_square_abs(t.0);
    lemma_square_abs(t.1);
    lemma_square_le(a, min);
    lemma_square_le(b, min);
}

/// A vector other than zero stays other than zero when refined.
pub proof fn lemma_refined_length(p: (int, int))
    ensures
        norm_sq(refined(p)) == norm_sq(p) * (ROOT_SCALE * ROOT_SCALE),
        norm_sq(p) > 0 ==> norm_sq(refined(p)) > 0,
        norm_sq(p) >= 0,
{
    let s = ROOT_SCALE as int;
    assert((p.0 * s) * (p.0 * s) + (p.1 * s) * (p.1 * s) == (p.0 * p.0 + p.1 * p.1) * (s * s))
        by (nonlinear_arith);
    lemma_square_abs(p.0);
    lemma_square_abs(p.1);
    assert(norm_sq(p) > 0 ==> norm_sq(p) * (s * s) > 0) by (nonlinear_arith)
        requires
            s == 1_000_000,
    ;
}

/// A capped vector is never longer than `max`.
pub proof fn lemma_capped_within(p: (int, int), max: int)
    requires
        max >= 0,
    ensures
        norm_sq(capped(p, max)) <= max * max,
{
    lemma_refined_length(p);
    if norm_sq(p) > max * max {
        assert(max * max >= 0) by (nonlinear_arith);
        lemma_shrunk_within(refined(p), max);
        lemma_clamp_shortens(shrunk(refined(p), max));
    } else {
        lemma_clamp_shortens(p);
    }
}

/// A vector other than zero, brought into a band whose upper end is at least
/// twice its lower end, has a length inside the band.
pub proof fn lemma_banded_in_band(p: (int, int), min: int, max: int)
    requires
        in_world(p),
        p != (0int, 0int),
        0 < min,
        2 * min <= max,
        max <= COORD_LIMIT,
    ensures
        min * min <= norm_sq(banded(p, min, max)),
        norm_sq(banded(p, min, max)) <= max * max,
{
    let n = norm_sq(p);
    lemma_square_abs(p.0);
    lemma_square_abs(p.1);
    lemma_refined_length(p);
    assert(n > 0);
    assert(max * max >= 4 * (min * min) && min * min >= 1) by (nonlinear_arith)
        requires
            0 < min,
            2 * min <= max,
    ;
    let q = refined(p);
    if n < min * min {
        lemma_stretched_reaches(q, min);
        lemma_clamp_coord_abs(stretched(q, min).0);
        lemma_clamp_coord_abs(stretched(q, min).1);
    } else if n > max * max {
        lemma_shrunk_within(q, max);
        lemma_shrunk_reaches(q, min, max);
        lemma_clamp_coord_abs(shrunk(q, max).0);
        lemma_clamp_coord_abs(shrunk(q, max).1);
    } else {
        lemma_clamp_coord_abs(p.0);
        lemma_clamp_coord_abs(p.1);
    }
}

/// No coordinate of a vector is longer than the vector.
pub proof fn lemma_coordinates_within(p: (int, int), max: int)
    requires
        0 <= max,
        norm_sq(p) <= max * max,
    ensures
        abs_int(p.0) <= max,
        abs_int(p.1) <= max,
{
    lemma_square_abs(p.0);
    lemma_square_abs(p.1);
    lemma_root_le(abs_int(p.0), max);
    lemma_root_le(abs_int(p.1), max);
}

/// Adding nothing to a vector of the world leaves it as it is.
pub proof fn lemma_plus_nothing(a: (int, int))
    requires
        in_world(a),
    ensures
        point_plus(a, (0int, 0int)) == a,
{
}

/// Two forces add to a sum in either order, as long as no sum on the way
/// leaves the world.
pub proof fn lemma_plus_in_any_order(v: (int, int), f: (int, int), g: (int, int))
    requires
        in_world((v.0 + f.0, v.1 + f.1)),
        in_world((v.0 + g.0, v.1 + g.1)),
    ensures
        point_plus(point_plus(v, f), g) == point_plus(point_plus(v, g), f),
{
}

} // verus!
