//! Integer 2D vectors, truncating division, integer square roots, and the
//! normalise-and-scale step that all movement integration uses.

use vstd::prelude::*;

verus! {

/// Largest magnitude a world coordinate may take. Positions are kept within
/// this bound so that squared distances always fit in an `i64`.
pub const COORD_LIMIT: i64 = 1_000_000_000;

/// Largest magnitude a movement-accumulator component may take: a seek
/// contribution (at most twice the coordinate limit) plus room for noise and
/// repulsion contributions.
pub const ACCUM_LIMIT: i64 = 2_100_000_000;

/// A 2D vector (or point) on the integer world grid.
#[derive(Clone, Copy, PartialEq, Eq, Structural, Debug)]
pub struct Vec2i {
    pub x: i64,
    pub y: i64,
}

impl Vec2i {
    /// Squared Euclidean norm, as a mathematical integer.
    pub open spec fn norm_sq(self) -> int {
        self.x * self.x + self.y * self.y
    }

    /// Both components within `lim` in magnitude.
    pub open spec fn bounded(self, lim: int) -> bool {
        -lim <= self.x <= lim && -lim <= self.y <= lim
    }

    pub fn zero() -> (r: Vec2i)
        ensures
            r == (Vec2i { x: 0, y: 0 }),
    {
        Vec2i { x: 0, y: 0 }
    }

    pub fn add(self, o: Vec2i) -> (r: Vec2i)
        requires
            i64::MIN <= self.x + o.x <= i64::MAX,
            i64::MIN <= self.y + o.y <= i64::MAX,
        ensures
            r.x == self.x + o.x,
            r.y == self.y + o.y,
    {
        Vec2i { x: self.x + o.x, y: self.y + o.y }
    }

    pub fn sub(self, o: Vec2i) -> (r: Vec2i)
        requires
            i64::MIN <= self.x - o.x <= i64::MAX,
            i64::MIN <= self.y - o.y <= i64::MAX,
        ensures
            r.x == self.x - o.x,
            r.y == self.y - o.y,
    {
        Vec2i { x: self.x - o.x, y: self.y - o.y }
    }
}

/// Squared distance between two points, as a mathematical integer.
pub open spec fn dist_sq(a: Vec2i, b: Vec2i) -> int {
    (a.x - b.x) * (a.x - b.x) + (a.y - b.y) * (a.y - b.y)
}

/// Truncating division (rounding toward zero), the behaviour of Rust's `/`
/// on signed integers, for a positive divisor.
pub open spec fn tdiv(a: int, d: int) -> int {
    if a >= 0 {
        a / d
    } else {
        -((-a) / d)
    }
}

/// Truncating division rounds toward zero, so the quotient never exceeds the
/// dividend in magnitude and keeps its sign.
pub proof fn lemma_tdiv_bounds(a: int, d: int)
    requires
        d >= 1,
    ensures
        a >= 0 ==> 0 <= tdiv(a, d) <= a,
        a <= 0 ==> a <= tdiv(a, d) <= 0,
        tdiv(-a, d) == -tdiv(a, d),
{
    if a >= 0 {
        assert(0 <= a / d <= a) by (nonlinear_arith)
            requires
                a >= 0,
                d >= 1,
        ;
    } else {
        assert(0 <= (-a) / d <= -a) by (nonlinear_arith)
            requires
                -a >= 0,
                d >= 1,
        ;
    }
}

/// `r` is the floor of the square root of `n`.
pub open spec fn is_floor_sqrt(n: int, r: int) -> bool {
    0 <= r && r * r <= n && n < (r + 1) * (r + 1)
}

/// The floor of the square root of a nonnegative integer.
pub open spec fn floor_sqrt(n: int) -> int {
    choose|r: int| #[trigger] is_floor_sqrt(n, r)
}

pub proof fn lemma_floor_sqrt_exists(n: int)
    requires
        n >= 0,
    ensures
        exists|r: int| #[trigger] is_floor_sqrt(n, r),
    decreases n,
{
    if n == 0 {
        assert(is_floor_sqrt(0, 0));
    } else {
        lemma_floor_sqrt_exists(n - 1);
        let r = choose|r: int| #[trigger] is_floor_sqrt(n - 1, r);
        if (r + 1) * (r + 1) <= n {
            assert(is_floor_sqrt(n, r + 1)) by (nonlinear_arith)
                requires
                    is_floor_sqrt(n - 1, r),
                    (r + 1) * (r + 1) <= n,
            ;
        } else {
            assert(is_floor_sqrt(n, r));
        }
    }
}

pub proof fn lemma_floor_sqrt_unique(n: int, r1: int, r2: int)
    requires
        is_floor_sqrt(n, r1),
        is_floor_sqrt(n, r2),
    ensures
        r1 == r2,
{
    assert(r1 == r2) by (nonlinear_arith)
        requires
            is_floor_sqrt(n, r1),
            is_floor_sqrt(n, r2),
    ;
}

/// The floor square root is what `is_floor_sqrt` describes, and it is the
/// only such value.
pub proof fn lemma_floor_sqrt(n: int)
    requires
        n >= 0,
    ensures
        is_floor_sqrt(n, floor_sqrt(n)),
        forall|r: int| is_floor_sqrt(n, r) ==> r == floor_sqrt(n),
{
    lemma_floor_sqrt_exists(n);
    assert(is_floor_sqrt(n, floor_sqrt(n)));
    assert forall|r: int| is_floor_sqrt(n, r) implies r == floor_sqrt(n) by {
        lemma_floor_sqrt_unique(n, r, floor_sqrt(n));
    }
}

/// The square root of zero is zero.
pub proof fn lemma_floor_sqrt_zero()
    ensures
        floor_sqrt(0) == 0,
{
    lemma_floor_sqrt(0);
    assert(is_floor_sqrt(0, 0));
    lemma_floor_sqrt_unique(0, 0, floor_sqrt(0));
}

/// Floor of the square root of `n`, by binary search.
pub fn isqrt(n: u64) -> (r: u64)
    ensures
        is_floor_sqrt(n as int, r as int),
        r == floor_sqrt(n as int),
        r <= 0xFFFF_FFFF,
{
    let mut lo: u64 = 0;
    let mut hi: u64 = 0x1_0000_0000;
    while lo + 1 < hi
        invariant
            lo < hi <= 0x1_0000_0000,
            lo * lo <= n,
            (n as int) < (hi as int) * (hi as int),
        decreases hi - lo,
    {
        let mid: u64 = lo + (hi - lo) / 2;
        assert(lo < mid < hi);
        assert(mid * mid <= u64::MAX) by (nonlinear_arith)
            requires
                mid <= 0xFFFF_FFFF,
        ;
        if mid * mid <= n {
            lo = mid;
        } else {
            hi = mid;
        }
    }
    proof {
        lemma_floor_sqrt(n as int);
        lemma_floor_sqrt_unique(n as int, lo as int, floor_sqrt(n as int));
    }
    lo
}

/// Truncating division of `a` by a positive divisor `d`, exactly Rust's
/// signed `/`.
pub fn div_trunc(a: i64, d: i64) -> (r: i64)
    requires
        d >= 1,
        a > i64::MIN,
    ensures
        r == tdiv(a as int, d as int),
        a >= 0 ==> 0 <= r <= a,
        a <= 0 ==> a <= r <= 0,
{
    proof {
        lemma_tdiv_bounds(a as int, d as int);
    }
    let q = a.checked_div(d);
    q.unwrap()
}

/// The x component of the normalise-and-scale step: the component of `v`,
/// scaled by `num / den` and divided by the magnitude of `v` (so the step has
/// length about `num / den`), everything truncated toward zero. A zero vector
/// steps by exactly zero.
pub open spec fn step_x(v: Vec2i, num: int, den: int) -> int {
    let m = floor_sqrt(v.norm_sq());
    if m == 0 {
        0
    } else {
        tdiv(v.x * num, den * m)
    }
}

/// The y component of the normalise-and-scale step.
pub open spec fn step_y(v: Vec2i, num: int, den: int) -> int {
    let m = floor_sqrt(v.norm_sq());
    if m == 0 {
        0
    } else {
        tdiv(v.y * num, den * m)
    }
}

/// Squares of accumulator-bounded components fit comfortably in an `i64`.
proof fn lemma_norm_sq_bound(v: Vec2i)
    requires
        v.bounded(ACCUM_LIMIT as int),
    ensures
        0 <= v.x * v.x <= 4_410_000_000_000_000_000,
        0 <= v.y * v.y <= 4_410_000_000_000_000_000,
        v.x * v.x <= v.norm_sq(),
        v.y * v.y <= v.norm_sq(),
        0 <= v.norm_sq() <= 8_820_000_000_000_000_000,
        v.norm_sq() == 0 <==> v.x == 0 && v.y == 0,
{
    assert(0 <= v.x * v.x <= 4_410_000_000_000_000_000
        && 0 <= v.y * v.y <= 4_410_000_000_000_000_000
        && (v.x * v.x == 0 <==> v.x == 0)
        && (v.y * v.y == 0 <==> v.y == 0)) by (nonlinear_arith)
        requires
            -2_100_000_000 <= v.x <= 2_100_000_000,
            -2_100_000_000 <= v.y <= 2_100_000_000,
    ;
}

/// Move one normalised step of scale `num / den` along `v`: the executable
/// form of `step_x` / `step_y`. The step components never exceed `num` in
/// magnitude, and the zero vector yields a zero step (no division happens,
/// so there is nothing like a NaN to guard against).
pub fn norm_step(v: Vec2i, num: i64, den: i64) -> (r: Vec2i)
    requires
        1 <= den <= 1_000_000,
        0 <= num <= 100_000_000,
        v.bounded(ACCUM_LIMIT as int),
    ensures
        r.x == step_x(v, num as int, den as int),
        r.y == step_y(v, num as int, den as int),
        -num <= r.x <= num,
        -num <= r.y <= num,
        v.x == 0 && v.y == 0 ==> r == (Vec2i { x: 0, y: 0 }),
{
    proof {
        lemma_norm_sq_bound(v);
    }
    let nsq: i64 = v.x * v.x + v.y * v.y;
    let m: u64 = isqrt(nsq as u64);
    if m == 0 {
        proof {
            lemma_floor_sqrt(v.norm_sq());
        }
        Vec2i { x: 0, y: 0 }
    } else {
        let mi: i64 = m as i64;
        proof {
            lemma_floor_sqrt(v.norm_sq());
            lemma_floor_sqrt_unique(v.norm_sq(), m as int, floor_sqrt(v.norm_sq()));
        }
        assert(v.x * v.x < (m + 1) * (m + 1) && v.y * v.y < (m + 1) * (m + 1));
        assert(v.x * num < i64::MAX && v.x * num > i64::MIN
            && v.y * num < i64::MAX && v.y * num > i64::MIN
            && den * mi <= i64::MAX && den * mi >= 1) by (nonlinear_arith)
            requires
                -2_100_000_000 <= v.x <= 2_100_000_000,
                -2_100_000_000 <= v.y <= 2_100_000_000,
                0 <= num <= 100_000_000,
                1 <= den <= 1_000_000,
                1 <= mi <= 0xFFFF_FFFF,
        ;
        let sx: i64 = div_trunc(v.x * num, den * mi);
        let sy: i64 = div_trunc(v.y * num, den * mi);
        proof {
            lemma_step_component_bound(v.x as int, num as int, den as int, m as int);
            lemma_step_component_bound(v.y as int, num as int, den as int, m as int);
        }
        Vec2i { x: sx, y: sy }
    }
}

/// One truncated step component is at most `num` in magnitude, because the
/// magnitude `m` of the vector bounds each of its components.
pub proof fn lemma_step_component_bound(c: int, num: int, den: int, m: int)
    requires
        1 <= den,
        0 <= num,
        1 <= m,
        c * c < (m + 1) * (m + 1),
        -0x7FFF_FFFF_FFFF_FFFF <= c * num <= 0x7FFF_FFFF_FFFF_FFFF,
    ensures
        -num <= tdiv(c * num, den * m) <= num,
{
    assert(-m <= c <= m) by (nonlinear_arith)
        requires
            c * c < (m + 1) * (m + 1),
            1 <= m,
    ;
    assert(den * m >= 1) by (nonlinear_arith)
        requires
            1 <= den,
            1 <= m,
    ;
    if c >= 0 {
        assert(0 <= c * num <= m * num) by (nonlinear_arith)
            requires
                0 <= c <= m,
                0 <= num,
        ;
        lemma_tdiv_bounds(c * num, den * m);
        assert(tdiv(c * num, den * m) == (c * num) / (den * m));
        assert((c * num) / (den * m) <= num) by (nonlinear_arith)
            requires
                0 <= c * num <= m * num,
                1 <= den,
                1 <= m,
                0 <= num,
        ;
    } else {
        let b = (-c) * num;
        assert(0 <= b <= m * num && c * num == -b) by (nonlinear_arith)
            requires
                0 <= -c <= m,
                0 <= num,
                b == (-c) * num,
        ;
        lemma_tdiv_bounds(b, den * m);
        assert(tdiv(c * num, den * m) == -tdiv(b, den * m));
        assert(tdiv(b, den * m) == b / (den * m));
        assert(b / (den * m) <= num) by (nonlinear_arith)
            requires
                0 <= b <= m * num,
                1 <= den,
                1 <= m,
                0 <= num,
        ;
    }
}

} // verus!
