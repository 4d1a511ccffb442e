//! Geographic points in fixed-point degrees and the haversine distance
//! between them, computed in integer arithmetic.
use vstd::prelude::*;

verus! {

/// One degree is `DEG` units: coordinates carry seven decimal places.
pub const DEG: i64 = 10_000_000;

/// Fixed-point scale of angles (nanoradians) and of ratios in `[0, 1]`.
pub const FX: u128 = 1_000_000_000;

/// pi / 2 in nanoradians, rounded up.
pub const HALF_PI_NRAD: u128 = 1_570_796_327;

/// pi / 180 times 10^18: converts `DEG` units to nanoradians when divided by 10^16.
pub const RAD_PER_DEG_E18: u128 = 17_453_292_519_943_295;

pub const E16: u128 = 10_000_000_000_000_000;

/// Twice the earth's radius of 6 371 000 m, in millimetres per thousand nanoradians.
pub const EARTH_DIAMETER_MM_PER_KNRAD: u128 = 12_742;

/// Half the earth's circumference, rounded up: no distance exceeds it.
pub const MAX_DISTANCE_MM: u64 = 20_015_087_000;

/// A point as `[lon, lat]`, both in units of 10^-7 degree.
#[derive(Clone, Copy, Debug, PartialEq, Eq, Structural)]
pub struct GeoPoint {
    pub lon: i64,
    pub lat: i64,
}

impl GeoPoint {
    /// Latitude within +-90 degrees and longitude within +-180 degrees.
    pub open spec fn wf(&self) -> bool {
        -90 * DEG <= self.lat <= 90 * DEG && -180 * DEG <= self.lon <= 180 * DEG
    }

    pub fn origin() -> (r: GeoPoint)
        ensures
            r == (GeoPoint { lon: 0, lat: 0 }),
    {
        GeoPoint { lon: 0, lat: 0 }
    }

    pub fn is_origin(&self) -> (r: bool)
        ensures
            r == (self.lon == 0 && self.lat == 0),
    {
        self.lon == 0 && self.lat == 0
    }
}

pub open spec fn abs_int(x: int) -> int {
    if x < 0 {
        -x
    } else {
        x
    }
}

/// One Horner step of the sine series: `1 - x2 * t / k`, in fixed point.
pub open spec fn sin_step(t: int, x2: int, k: int) -> int {
    FX - (x2 * t) / (k * FX)
}

/// Sine of `x` nanoradians (`0 <= x <= pi / 2`), scaled by `FX`, from the
/// Taylor series up to the term in x^13.
pub open spec fn sin_fx(x: int) -> int {
    let x2 = x * x / (FX as int);
    let t6 = sin_step(FX as int, x2, 156);
    let t5 = sin_step(t6, x2, 110);
    let t4 = sin_step(t5, x2, 72);
    let t3 = sin_step(t4, x2, 42);
    let t2 = sin_step(t3, x2, 20);
    let t1 = sin_step(t2, x2, 6);
    x * t1 / (FX as int)
}

/// sin^2 of `x` nanoradians, scaled by `FX * FX`.
pub open spec fn sin_sq_fx(x: int) -> int {
    sin_fx(x) * sin_fx(x)
}

/// Nanoradians of an angle given in `DEG` units.
pub open spec fn nrad(d: int) -> int {
    d * RAD_PER_DEG_E18 / (E16 as int)
}

/// sin^2 of half of the angle `w` (in `DEG` units, `0 <= w <= 360` degrees),
/// scaled by `FX * FX`; beyond 180 degrees the supplementary angle gives the same value.
pub open spec fn sin_sq_half(w: int) -> int {
    let r = if w > 180 * DEG {
        360 * DEG - w
    } else {
        w
    };
    sin_sq_fx(r * RAD_PER_DEG_E18 / (2 * E16))
}

/// Cosine of a latitude (in `DEG` units, within +-90 degrees), scaled by `FX`.
pub open spec fn cos_lat(lat: int) -> int {
    sin_fx(nrad(90 * DEG - abs_int(lat)))
}

/// The haversine term `a`, scaled by `FX * FX` and capped at `FX * FX`.
pub open spec fn haversine_a(p: GeoPoint, q: GeoPoint) -> int {
    let dlat = sin_sq_half(abs_int(q.lat - p.lat));
    let dlon = sin_sq_half(abs_int(q.lon - p.lon));
    let cc = cos_lat(p.lat as int) * cos_lat(q.lat as int);
    let a = dlat + cc * dlon / (FX * FX) as int;
    if a > (FX * FX) as int {
        (FX * FX) as int
    } else {
        a
    }
}

/// The least angle in `[lo, hi]` found by bisection whose sin^2 reaches `a`:
/// the arcsine of the square root of `a`, in nanoradians.
pub open spec fn asin_sqrt(a: int, lo: int, hi: int) -> int
    decreases hi - lo,
{
    if lo >= hi {
        lo
    } else {
        let mid = lo + (hi - lo) / 2;
        if sin_sq_fx(mid) < a {
            asin_sqrt(a, mid + 1, hi)
        } else {
            asin_sqrt(a, lo, mid)
        }
    }
}

/// Great-circle distance in millimetres on a sphere of radius 6 371 000 m:
/// `2 R atan2(sqrt a, sqrt (1 - a))`, that is `2 R asin(sqrt a)`.
pub open spec fn haversine_mm(p: GeoPoint, q: GeoPoint) -> int {
    asin_sqrt(haversine_a(p, q), 0, HALF_PI_NRAD as int) * EARTH_DIAMETER_MM_PER_KNRAD / 1000
}

proof fn lemma_sin_step_bounds(t: int, x2: int, k: int)
    requires
        0 <= t <= FX,
        0 <= x2 <= 2_500_000_000,
        k >= 6,
    ensures
        0 <= sin_step(t, x2, k) <= FX,
{
    assert(x2 * t <= 2_500_000_000 * (FX as int)) by (nonlinear_arith)
        requires
            0 <= t <= FX,
            0 <= x2 <= 2_500_000_000,
    ;
    assert(0 <= x2 * t) by (nonlinear_arith)
        requires
            0 <= t,
            0 <= x2,
    ;
    assert(x2 * t <= (k * FX) * (FX as int)) by (nonlinear_arith)
        requires
            x2 * t <= 2_500_000_000 * (FX as int),
            k >= 6,
    ;
    vstd::arithmetic::div_mod::lemma_multiply_divide_le(x2 * t, k * FX, FX as int);
    vstd::arithmetic::div_mod::lemma_div_pos_is_pos(x2 * t, k * FX);
}

fn sin_step_fixed(t: u128, x2: u128, k: u128) -> (r: u128)
    requires
        t <= FX,
        x2 <= 2_500_000_000,
        6 <= k <= 1000,
    ensures
        r == sin_step(t as int, x2 as int, k as int),
        r <= FX,
{
    proof {
        lemma_sin_step_bounds(t as int, x2 as int, k as int);
    }
    assert(x2 * t <= 2_500_000_000 * FX) by (nonlinear_arith)
        requires
            t <= FX,
            x2 <= 2_500_000_000,
    ;
    FX - x2 * t / (k * FX)
}

/// `sin_fx(x)` for `0 <= x <= pi / 2`, with the bounds that keep the
/// intermediate products small.
fn sin_fixed(x: u128) -> (r: u128)
    requires
        x <= HALF_PI_NRAD,
    ensures
        r == sin_fx(x as int),
        r <= HALF_PI_NRAD,
{
    assert(x * x <= HALF_PI_NRAD * HALF_PI_NRAD) by (nonlinear_arith)
        requires
            x <= HALF_PI_NRAD,
    ;
    let x2 = x * x / FX;
    proof {
        vstd::arithmetic::div_mod::lemma_div_is_ordered(
            (x * x) as int,
            (HALF_PI_NRAD * HALF_PI_NRAD) as int,
            FX as int,
        );
    }
    let t6 = sin_step_fixed(FX, x2, 156);
    let t5 = sin_step_fixed(t6, x2, 110);
    let t4 = sin_step_fixed(t5, x2, 72);
    let t3 = sin_step_fixed(t4, x2, 42);
    let t2 = sin_step_fixed(t3, x2, 20);
    let t1 = sin_step_fixed(t2, x2, 6);
    assert(x * t1 <= HALF_PI_NRAD * FX) by (nonlinear_arith)
        requires
            x <= HALF_PI_NRAD,
            t1 <= FX,
    ;
    let r = x * t1 / FX;
    proof {
        vstd::arithmetic::div_mod::lemma_div_is_ordered(
            (x * t1) as int,
            (HALF_PI_NRAD * FX) as int,
            FX as int,
        );
        vstd::arithmetic::div_mod::lemma_div_multiples_vanish(HALF_PI_NRAD as int, FX as int);
    }
    r
}

fn sin_sq_fixed(x: u128) -> (r: u128)
    requires
        x <= HALF_PI_NRAD,
    ensures
        r == sin_sq_fx(x as int),
        r <= HALF_PI_NRAD * HALF_PI_NRAD,
{
    let s = sin_fixed(x);
    assert(s * s <= HALF_PI_NRAD * HALF_PI_NRAD) by (nonlinear_arith)
        requires
            s <= HALF_PI_NRAD,
    ;
    s * s
}

fn sin_sq_half_fixed(w: u128) -> (r: u128)
    requires
        w <= 360 * DEG,
    ensures
        r == sin_sq_half(w as int),
        r <= HALF_PI_NRAD * HALF_PI_NRAD,
{
    let red: u128 = if w > 180 * (DEG as u128) {
        360 * (DEG as u128) - w
    } else {
        w
    };
    assert(red * RAD_PER_DEG_E18 <= 180 * (DEG as u128) * RAD_PER_DEG_E18) by (nonlinear_arith)
        requires
            red <= 180 * DEG,
    ;
    let x = red * RAD_PER_DEG_E18 / (2 * E16);
    proof {
        vstd::arithmetic::div_mod::lemma_div_is_ordered(
            (red * RAD_PER_DEG_E18) as int,
            (180 * (DEG as u128) * RAD_PER_DEG_E18) as int,
            (2 * E16) as int,
        );
    }
    sin_sq_fixed(x)
}

fn cos_lat_fixed(lat: i64) -> (r: u128)
    requires
        -90 * DEG <= lat <= 90 * DEG,
    ensures
        r == cos_lat(lat as int),
        r <= HALF_PI_NRAD,
{
    let a: u128 = if lat < 0 {
        (0i128 - lat as i128) as u128
    } else {
        lat as u128
    };
    let d: u128 = 90 * (DEG as u128) - a;
    assert(d * RAD_PER_DEG_E18 <= 90 * (DEG as u128) * RAD_PER_DEG_E18) by (nonlinear_arith)
        requires
            d <= 90 * DEG,
    ;
    let x = d * RAD_PER_DEG_E18 / E16;
    proof {
        vstd::arithmetic::div_mod::lemma_div_is_ordered(
            (d * RAD_PER_DEG_E18) as int,
            (90 * (DEG as u128) * RAD_PER_DEG_E18) as int,
            E16 as int,
        );
    }
    sin_fixed(x)
}

fn abs_diff(a: i64, b: i64) -> (r: u128)
    ensures
        r == abs_int(b - a),
{
    let d: i128 = b as i128 - a as i128;
    if d < 0 {
        (0 - d) as u128
    } else {
        d as u128
    }
}

/// Haversine distance between two points, in millimetres.
pub fn haversine_distance(p: GeoPoint, q: GeoPoint) -> (r: u64)
    requires
        p.wf(),
        q.wf(),
    ensures
        r == haversine_mm(p, q),
        r <= MAX_DISTANCE_MM,
{
    let dlat = sin_sq_half_fixed(abs_diff(p.lat, q.lat));
    let dlon = sin_sq_half_fixed(abs_diff(p.lon, q.lon));
    let c1 = cos_lat_fixed(p.lat);
    let c2 = cos_lat_fixed(q.lat);
    assert(c1 * c2 <= HALF_PI_NRAD * HALF_PI_NRAD) by (nonlinear_arith)
        requires
            c1 <= HALF_PI_NRAD,
            c2 <= HALF_PI_NRAD,
    ;
    let cc = c1 * c2;
    assert(cc * dlon <= (HALF_PI_NRAD * HALF_PI_NRAD) * (HALF_PI_NRAD * HALF_PI_NRAD)) by (nonlinear_arith)
        requires
            cc <= HALF_PI_NRAD * HALF_PI_NRAD,
            dlon <= HALF_PI_NRAD * HALF_PI_NRAD,
    ;
    let mut a = dlat + cc * dlon / (FX * FX);
    if a > FX * FX {
        a = FX * FX;
    }
    let mut lo: u128 = 0;
    let mut hi: u128 = HALF_PI_NRAD;
    while lo < hi
        invariant
            lo <= hi <= HALF_PI_NRAD,
            a == haversine_a(p, q),
            asin_sqrt(a as int, lo as int, hi as int) == asin_sqrt(
                a as int,
                0,
                HALF_PI_NRAD as int,
            ),
        decreases hi - lo,
    {
        let mid = lo + (hi - lo) / 2;
        if sin_sq_fixed(mid) < a {
            lo = mid + 1;
        } else {
            hi = mid;
        }
    }
    assert(lo * EARTH_DIAMETER_MM_PER_KNRAD <= HALF_PI_NRAD * EARTH_DIAMETER_MM_PER_KNRAD) by (nonlinear_arith)
        requires
            lo <= HALF_PI_NRAD,
    ;
    let r = lo * EARTH_DIAMETER_MM_PER_KNRAD / 1000;
    proof {
        vstd::arithmetic::div_mod::lemma_div_is_ordered(
            (lo * EARTH_DIAMETER_MM_PER_KNRAD) as int,
            (HALF_PI_NRAD * EARTH_DIAMETER_MM_PER_KNRAD) as int,
            1000,
        );
    }
    r as u64
}

proof fn lemma_asin_sqrt_zero(lo: int, hi: int)
    requires
        lo <= hi,
    ensures
        asin_sqrt(0, lo, hi) == lo,
    decreases hi - lo,
{
    if lo < hi {
        let mid = lo + (hi - lo) / 2;
        let s = sin_fx(mid);
        assert(s * s >= 0) by (nonlinear_arith);
        lemma_asin_sqrt_zero(lo, mid);
    }
}

/// The distance from a point to itself is zero, the distance is the same in
/// both directions, and it is never negative.
pub proof fn lemma_haversine_laws(p: GeoPoint, q: GeoPoint)
    ensures
        haversine_mm(p, p) == 0,
        haversine_mm(p, q) == haversine_mm(q, p),
        haversine_mm(p, q) >= 0,
{
    assert(sin_fx(0) == 0);
    assert(sin_sq_fx(0) == 0);
    assert(sin_sq_half(0) == 0);
    let cc = cos_lat(p.lat as int) * cos_lat(p.lat as int);
    assert(cc * 0 == 0);
    assert(haversine_a(p, p) == 0);
    lemma_asin_sqrt_zero(0, HALF_PI_NRAD as int);
    assert(cos_lat(p.lat as int) * cos_lat(q.lat as int) == cos_lat(q.lat as int) * cos_lat(
        p.lat as int,
    )) by (nonlinear_arith);
    assert(haversine_a(p, q) == haversine_a(q, p));
    lemma_asin_sqrt_nonneg(haversine_a(p, q), 0, HALF_PI_NRAD as int);
}

proof fn lemma_asin_sqrt_nonneg(a: int, lo: int, hi: int)
    requires
        0 <= lo <= hi,
    ensures
        lo <= asin_sqrt(a, lo, hi) <= hi,
    decreases hi - lo,
{
    if lo < hi {
        let mid = lo + (hi - lo) / 2;
        if sin_sq_fx(mid) < a {
            lemma_asin_sqrt_nonneg(a, mid + 1, hi);
        } else {
            lemma_asin_sqrt_nonneg(a, lo, mid);
        }
    }
}

} // verus!
