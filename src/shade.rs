use vstd::prelude::*;
use vstd::arithmetic::div_mod::{lemma_fundamental_div_mod, lemma_fundamental_div_mod_converse, lemma_mod_pos_bound, lemma_div_is_ordered};
use crate::raster::{Bary, Vec3, COORD_MAX};

verus! {

/// Fixed-point one for texture coordinates, normals, light directions and brightness.
pub const UNIT: i64 = 4096;

/// The largest magnitude of a normal or light-direction component.
pub const NORMAL_MAX: i64 = 65536;

/// A texture coordinate in units of `UNIT`.
#[derive(Clone, Copy, Debug, PartialEq, Eq, Structural)]
pub struct Uv {
    pub u: i64,
    pub v: i64,
}

/// A framebuffer pixel.
#[derive(Clone, Copy, Debug, PartialEq, Eq, Structural)]
pub struct Rgb {
    pub r: u8,
    pub g: u8,
    pub b: u8,
}

/// A texel; `a == 255` is fully opaque.
#[derive(Clone, Copy, Debug, PartialEq, Eq, Structural)]
pub struct Rgba {
    pub r: u8,
    pub g: u8,
    pub b: u8,
    pub a: u8,
}

/// The colour used where no texel is sampled: white and fully transparent.
pub open spec fn clear_texel() -> Rgba {
    Rgba { r: 255, g: 255, b: 255, a: 0 }
}

/// A decoded RGBA image, stored row by row from the top.
pub struct Texture {
    pub width: u32,
    pub height: u32,
    pub texels: Vec<Rgba>,
}

impl Texture {
    pub open spec fn wf(&self) -> bool {
        self.texels@.len() == self.width * self.height
    }
}

/// Floor division, as the spec language's `/` for a positive divisor.
pub fn floor_div(a: i128, d: i128) -> (r: i128)
    requires
        0 < d <= 0x10000000000000000000000000000,
        -0x10000000000000000000000000000 <= a <= 0x10000000000000000000000000000,
    ensures
        r == a / d,
{
    if a >= 0 {
        let q = (a as u128 / d as u128) as i128;
        proof {
            let (ai, di) = (a as int, d as int);
            lemma_fundamental_div_mod(ai, di);
            lemma_mod_pos_bound(ai, di);
            lemma_div_is_ordered(0, ai, di);
            let qi = ai / di;
            let rr = ai % di;
            assert(qi <= ai) by (nonlinear_arith)
                requires ai >= 0, di >= 1, ai == di * qi + rr, rr >= 0;
        }
        q
    } else {
        let na = (0 - a) as u128;
        let q = (na + d as u128 - 1) / d as u128;
        proof {
            let di = d as int;
            let x: int = na as int + di - 1;
            lemma_fundamental_div_mod(x, di);
            lemma_mod_pos_bound(x, di);
            let qi = x / di;
            let rr = x % di;
            assert(qi <= x) by (nonlinear_arith)
                requires x >= 0, di >= 1, x == di * qi + rr, rr >= 0;
            assert(a == -qi * di + (di - 1 - rr)) by (nonlinear_arith)
                requires x == di * qi + rr, x == -a + di - 1;
            lemma_fundamental_div_mod_converse(a as int, di, -qi, di - 1 - rr);
        }
        0 - q as i128
    }
}

/// The interpolation of three vertex values at the given barycentric
/// weights, rounded down.
pub open spec fn interp(b: Bary, a0: int, a1: int, a2: int) -> int {
    (b.w0 * a0 + b.w1 * a1 + b.w2 * a2) / (b.den as int)
}

/// Weights of a point inside (or on the edge of) a triangle.
pub open spec fn convex(b: Bary) -> bool {
    &&& b.w0 >= 0 && b.w1 >= 0 && b.w2 >= 0
    &&& b.den > 0
    &&& b.w0 + b.w1 + b.w2 == b.den
    &&& b.den <= 0x400000000000
}

pub(crate) proof fn lemma_convex_sum(b: Bary, a0: int, a1: int, a2: int, m: int)
    requires
        convex(b),
        -m <= a0 <= m,
        -m <= a1 <= m,
        -m <= a2 <= m,
        0 <= m <= COORD_MAX,
    ensures
        -m * b.den <= b.w0 * a0 + b.w1 * a1 + b.w2 * a2 <= m * b.den,
        -m <= interp(b, a0, a1, a2) <= m,
{
    let (w0, w1, w2, d) = (b.w0 as int, b.w1 as int, b.w2 as int, b.den as int);
    assert(-(m * w0) <= w0 * a0 <= m * w0) by (nonlinear_arith) requires w0 >= 0, -m <= a0 <= m;
    assert(-(m * w1) <= w1 * a1 <= m * w1) by (nonlinear_arith) requires w1 >= 0, -m <= a1 <= m;
    assert(-(m * w2) <= w2 * a2 <= m * w2) by (nonlinear_arith) requires w2 >= 0, -m <= a2 <= m;
    assert(m * w0 + m * w1 + m * w2 == m * d) by (nonlinear_arith) requires w0 + w1 + w2 == d;
    assert(-m * d == -(m * d)) by (nonlinear_arith);
    let s = w0 * a0 + w1 * a1 + w2 * a2;
    lemma_div_is_ordered(-m * d, s, d);
    lemma_div_is_ordered(s, m * d, d);
    assert((-m * d) / d == -m) by {
        lemma_fundamental_div_mod_converse(-m * d, d, -m, 0);
    }
    assert((m * d) / d == m) by {
        lemma_fundamental_div_mod_converse(m * d, d, m, 0);
    }
}

/// Interpolates three vertex values of magnitude at most `COORD_MAX`.
pub fn interpolate(b: &Bary, a0: i64, a1: i64, a2: i64) -> (r: i64)
    requires
        convex(*b),
        -COORD_MAX <= a0 <= COORD_MAX,
        -COORD_MAX <= a1 <= COORD_MAX,
        -COORD_MAX <= a2 <= COORD_MAX,
    ensures
        r == interp(*b, a0 as int, a1 as int, a2 as int),
        -COORD_MAX <= r <= COORD_MAX,
{
    proof {
        lemma_convex_sum(*b, a0 as int, a1 as int, a2 as int, COORD_MAX as int);
        assert(-0x400000000000 * 0x100000 <= b.w0 * a0 <= 0x400000000000 * 0x100000) by (nonlinear_arith)
            requires 0 <= b.w0 <= 0x400000000000, -0x100000 <= a0 <= 0x100000;
        assert(-0x400000000000 * 0x100000 <= b.w1 * a1 <= 0x400000000000 * 0x100000) by (nonlinear_arith)
            requires 0 <= b.w1 <= 0x400000000000, -0x100000 <= a1 <= 0x100000;
        assert(-0x400000000000 * 0x100000 <= b.w2 * a2 <= 0x400000000000 * 0x100000) by (nonlinear_arith)
            requires 0 <= b.w2 <= 0x400000000000, -0x100000 <= a2 <= 0x100000;
    }
    let s = b.w0 * a0 as i128 + b.w1 * a1 as i128 + b.w2 * a2 as i128;
    floor_div(s, b.den) as i64
}


/// `r` is the square root of `n`, rounded down.
pub open spec fn is_sqrt_floor(n: int, r: int) -> bool {
    r >= 0 && r * r <= n < (r + 1) * (r + 1)
}

pub open spec fn sqrt_floor_spec(n: int) -> int {
    choose|r: int| is_sqrt_floor(n, r)
}

proof fn lemma_sqrt_unique(n: int, r: int, s: int)
    requires
        is_sqrt_floor(n, r),
        is_sqrt_floor(n, s),
    ensures
        r == s,
{
    if r < s {
        assert((r + 1) * (r + 1) <= s * s) by (nonlinear_arith) requires 0 <= r + 1 <= s;
    } else if s < r {
        assert((s + 1) * (s + 1) <= r * r) by (nonlinear_arith) requires 0 <= s + 1 <= r;
    }
}

/// The square root of `n` rounded down, by bisection.
fn isqrt(n: u128) -> (r: u128)
    ensures
        is_sqrt_floor(n as int, r as int),
{
    let mut lo: u128 = 0;
    let mut hi: u128 = 0x10000000000000000;
    assert(n < 0x10000000000000000 * 0x10000000000000000);
    while hi - lo > 1
        invariant
            lo < hi <= 0x10000000000000000,
            lo * lo <= n,
            n < hi * hi,
        decreases hi - lo,
    {
        let mid = lo + (hi - lo) / 2;
        assert(mid * mid <= 0xffffffffffffffff * 0xffffffffffffffff) by (nonlinear_arith)
            requires 0 <= mid <= 0xffffffffffffffff;
        if mid * mid <= n {
            lo = mid;
        } else {
            hi = mid;
        }
    }
    lo
}

/// Relies on `num::clamp`: `lo` below the range, `hi` above it, the value itself within.
#[verifier::external_body]
fn clamp(v: i128, lo: i128, hi: i128) -> (r: i128)
    requires
        lo <= hi,
    ensures
        r == (if v < lo { lo } else if v > hi { hi } else { v }),
{
    num::clamp(v, lo, hi)
}

pub(crate) proof fn lemma_mul_abs(a: int, b: int, ma: int, mb: int)
    requires
        -ma <= a <= ma,
        -mb <= b <= mb,
    ensures
        -(ma * mb) <= a * b <= ma * mb,
{
    assert(-(ma * mb) <= a * b <= ma * mb) by (nonlinear_arith)
        requires -ma <= a <= ma, -mb <= b <= mb;
}

/// Depth units per sub-pixel unit: screen x and y times this are in the
/// same fixed-point unit (1/`UNIT` pixel) as depth.
pub const XY_SCALE: i64 = 256;

/// The face normal `(v2 - v0) x (v1 - v0)`, with x and y brought to the
/// unit of depth.
pub open spec fn flat_normal_spec(t: [Vec3; 3]) -> (int, int, int) {
    let (ax, ay, az) = ((t[2].x - t[0].x) * XY_SCALE, (t[2].y - t[0].y) * XY_SCALE, t[2].z - t[0].z);
    let (cx, cy, cz) = ((t[1].x - t[0].x) * XY_SCALE, (t[1].y - t[0].y) * XY_SCALE, t[1].z - t[0].z);
    (ay * cz - az * cy, az * cx - ax * cz, ax * cy - ay * cx)
}

pub open spec fn as_triple(v: Vec3) -> (int, int, int) {
    (v.x as int, v.y as int, v.z as int)
}

pub open spec fn normal_ok(v: Vec3) -> bool {
    -NORMAL_MAX <= v.x <= NORMAL_MAX && -NORMAL_MAX <= v.y <= NORMAL_MAX && -NORMAL_MAX <= v.z <= NORMAL_MAX
}

/// A vector whose components stay below the magnitude of any face normal.
pub open spec fn lighting_ok(v: Vec3) -> bool {
    -0x1000000000000000 <= v.x <= 0x1000000000000000 && -0x1000000000000000 <= v.y <= 0x1000000000000000
        && -0x1000000000000000 <= v.z <= 0x1000000000000000
}

/// The face normal of a triangle, from its vertices.
pub fn flat_normal(t: &[Vec3; 3]) -> (r: Vec3)
    requires
        crate::raster::tri_ok(*t),
    ensures
        as_triple(r) == flat_normal_spec(*t),
        lighting_ok(r),
{
    let (ax, ay, az) = ((t[2].x - t[0].x) * XY_SCALE, (t[2].y - t[0].y) * XY_SCALE, t[2].z - t[0].z);
    let (cx, cy, cz) = ((t[1].x - t[0].x) * XY_SCALE, (t[1].y - t[0].y) * XY_SCALE, t[1].z - t[0].z);
    proof {
        let m: int = 0x200000;
        let sm: int = 0x20000000;
        lemma_mul_abs(ay as int, cz as int, sm, m);
        lemma_mul_abs(az as int, cy as int, m, sm);
        lemma_mul_abs(az as int, cx as int, m, sm);
        lemma_mul_abs(ax as int, cz as int, sm, m);
        lemma_mul_abs(ax as int, cy as int, sm, sm);
        lemma_mul_abs(ay as int, cx as int, sm, sm);
    }
    Vec3 { x: ay * cz - az * cy, y: az * cx - ax * cz, z: ax * cy - ay * cx }
}

pub open spec fn dot_spec(n: (int, int, int), l: Vec3) -> int {
    n.0 * l.x + n.1 * l.y + n.2 * l.z
}

/// The light direction dotted with the unit vector along `n` (zero for a
/// zero vector): a light of length `UNIT` facing the surface gives `UNIT`.
pub open spec fn brightness_spec(n: (int, int, int), l: Vec3) -> int {
    let m = sqrt_floor_spec(n.0 * n.0 + n.1 * n.1 + n.2 * n.2);
    if m == 0 { 0 } else { dot_spec(n, l) / m }
}

/// How strongly a surface with normal `n` is lit from direction `light`.
pub fn brightness(n: &Vec3, light: &Vec3) -> (r: i128)
    requires
        lighting_ok(*n),
        normal_ok(*light),
    ensures
        r == brightness_spec(as_triple(*n), *light),
        -0x100000000000000000000 <= r <= 0x100000000000000000000,
{
    let ghost big: int = 0x1000000000000000;
    proof {
        lemma_mul_abs(n.x as int, n.x as int, big, big);
        lemma_mul_abs(n.y as int, n.y as int, big, big);
        lemma_mul_abs(n.z as int, n.z as int, big, big);
        lemma_mul_abs(n.x as int, light.x as int, big, NORMAL_MAX as int);
        lemma_mul_abs(n.y as int, light.y as int, big, NORMAL_MAX as int);
        lemma_mul_abs(n.z as int, light.z as int, big, NORMAL_MAX as int);
        assert(n.x * n.x >= 0 && n.y * n.y >= 0 && n.z * n.z >= 0) by (nonlinear_arith);
    }
    let (nx, ny, nz) = (n.x as i128, n.y as i128, n.z as i128);
    let mag2 = (nx * nx + ny * ny + nz * nz) as u128;
    let m = isqrt(mag2);
    proof {
        let ghost ms = sqrt_floor_spec(mag2 as int);
        assert(is_sqrt_floor(mag2 as int, ms));
        lemma_sqrt_unique(mag2 as int, m as int, ms);
    }
    if m == 0 {
        return 0;
    }
    let dot = nx * light.x as i128 + ny * light.y as i128 + nz * light.z as i128;
    proof {
        assert(m <= mag2) by (nonlinear_arith) requires m * m <= mag2, m >= 1;
        assert(m < 0x100000000000000000) by (nonlinear_arith)
            requires m * m <= mag2, mag2 < 0x10000000000000000000000000000000, m >= 1;
    }
    let r = floor_div(dot, m as i128);
    proof {
        let ghost q: int = dot as int;
        assert(-0x100000000000000000000 <= q <= 0x100000000000000000000);
        lemma_fundamental_div_mod(q, m as int);
        lemma_div_is_ordered(-0x100000000000000000000, q, m as int);
        lemma_div_is_ordered(q, 0x100000000000000000000, m as int);
        assert(-0x100000000000000000000 <= -0x100000000000000000000int / (m as int)) by (nonlinear_arith)
            requires m >= 1;
        assert(0x100000000000000000000int / (m as int) <= 0x100000000000000000000) by (nonlinear_arith)
            requires m >= 1;
    }
    r
}


/// `a / d` rounded to the nearest integer, halves upward.
pub open spec fn round_div(a: int, d: int) -> int {
    (2 * a + d) / (2 * d)
}

/// The texel that a texture coordinate falls on: `u` scaled by the width,
/// and `1 - v` by the height, since texture rows are stored top down.
pub open spec fn texel_coords_spec(width: int, height: int, uv: Uv) -> (int, int) {
    (round_div(uv.u * width, UNIT as int), round_div((UNIT - uv.v) * height, UNIT as int))
}

pub open spec fn uv_ok(uv: Uv) -> bool {
    -COORD_MAX <= uv.u <= COORD_MAX && -COORD_MAX <= uv.v <= COORD_MAX
}

/// The texel position of a texture coordinate on a `width` by `height` texture.
pub fn texel_coords(width: u32, height: u32, uv: Uv) -> (r: (i128, i128))
    requires
        uv_ok(uv),
    ensures
        r.0 == texel_coords_spec(width as int, height as int, uv).0,
        r.1 == texel_coords_spec(width as int, height as int, uv).1,
{
    proof {
        lemma_mul_abs(uv.u as int, width as int, COORD_MAX as int, 0x100000000);
        lemma_mul_abs(UNIT - uv.v, height as int, 0x200000, 0x100000000);
    }
    let x = floor_div(2 * (uv.u as i128 * width as i128) + UNIT as i128, 2 * UNIT as i128);
    let y = floor_div(2 * ((UNIT as i128 - uv.v as i128) * height as i128) + UNIT as i128, 2 * UNIT as i128);
    (x, y)
}

/// The interpolated texture coordinate at the given weights.
pub open spec fn uv_at(uvs: [Uv; 3], b: Bary) -> Uv {
    Uv {
        u: interp(b, uvs[0].u as int, uvs[1].u as int, uvs[2].u as int) as i64,
        v: interp(b, uvs[0].v as int, uvs[1].v as int, uvs[2].v as int) as i64,
    }
}

/// The texel a face shows at the given weights: the nearest texel to the
/// interpolated texture coordinate, or `clear_texel()` where the face has no
/// texture coordinates. `None` where the coordinate falls off the texture,
/// which no texel answers.
pub open spec fn sample_spec(tex: Texture, uvs: Option<[Uv; 3]>, b: Bary) -> Option<Rgba> {
    match uvs {
        None => Some(clear_texel()),
        Some(uvs) => {
            let (x, y) = texel_coords_spec(tex.width as int, tex.height as int, uv_at(uvs, b));
            if 0 <= x < tex.width && 0 <= y < tex.height {
                Some(tex.texels@[x + y * tex.width])
            } else {
                None
            }
        },
    }
}

pub open spec fn uvs_ok(uvs: Option<[Uv; 3]>) -> bool {
    uvs is Some ==> (uv_ok(uvs.unwrap()[0]) && uv_ok(uvs.unwrap()[1]) && uv_ok(uvs.unwrap()[2]))
}

/// Samples the texture at the interpolated texture coordinate.
pub fn sample_texture(tex: &Texture, uvs: &Option<[Uv; 3]>, b: &Bary) -> (r: Option<Rgba>)
    requires
        tex.wf(),
        uvs_ok(*uvs),
        convex(*b),
    ensures
        r == sample_spec(*tex, *uvs, *b),
{
    match uvs {
        None => Some(Rgba { r: 255, g: 255, b: 255, a: 0 }),
        Some(t) => {
            let u = interpolate(b, t[0].u, t[1].u, t[2].u);
            let v = interpolate(b, t[0].v, t[1].v, t[2].v);
            let (x, y) = texel_coords(tex.width, tex.height, Uv { u, v });
            if 0 <= x && x < tex.width as i128 && 0 <= y && y < tex.height as i128 {
                let (xu, yu) = (x as usize, y as usize);
                let n = tex.texels.len();
                proof {
                    assert(yu * tex.width <= xu + yu * tex.width < tex.width * tex.height) by (nonlinear_arith)
                        requires xu < tex.width, yu < tex.height;
                }
                Some(tex.texels[xu + yu * tex.width as usize])
            } else {
                None
            }
        },
    }
}

pub open spec fn clamp_byte(v: int) -> u8 {
    if v < 0 { 0 } else if v > 255 { 255 } else { v as u8 }
}

/// One colour channel: an opaque texel replaces the pixel; otherwise the
/// lit texel is added to the old pixel weighted by the texel's transparency.
pub open spec fn channel_spec(tc: u8, alpha: u8, br: int, old: u8) -> u8 {
    if alpha == 255 {
        clamp_byte(tc * br / (UNIT as int))
    } else {
        clamp_byte((tc * br * 255 + old * (255 - alpha) * UNIT) / (255 * UNIT as int))
    }
}

pub open spec fn composite_spec(t: Rgba, br: int, old: Rgb) -> Rgb {
    Rgb {
        r: channel_spec(t.r, t.a, br, old.r),
        g: channel_spec(t.g, t.a, br, old.g),
        b: channel_spec(t.b, t.a, br, old.b),
    }
}

fn channel(tc: u8, alpha: u8, br: i128, old: u8) -> (r: u8)
    requires
        -0x100000000000000000000 <= br <= 0x100000000000000000000,
    ensures
        r == channel_spec(tc, alpha, br as int, old),
{
    proof {
        lemma_mul_abs(tc as int, br as int, 256, 0x100000000000000000000);
        lemma_mul_abs(tc * br, 255, 0x10000000000000000000000, 255);
        lemma_mul_abs(old as int, (255 - alpha) as int, 256, 256);
    }
    let v = if alpha == 255 {
        floor_div(tc as i128 * br, UNIT as i128)
    } else {
        floor_div(tc as i128 * br * 255 + old as i128 * (255 - alpha as i128) * UNIT as i128, 255 * UNIT as i128)
    };
    clamp(v, 0, 255) as u8
}

/// Writes a lit texel over the old pixel.
pub fn composite(t: &Rgba, br: i128, old: &Rgb) -> (r: Rgb)
    requires
        -0x100000000000000000000 <= br <= 0x100000000000000000000,
    ensures
        r == composite_spec(*t, br as int, *old),
{
    Rgb { r: channel(t.r, t.a, br, old.r), g: channel(t.g, t.a, br, old.g), b: channel(t.b, t.a, br, old.b) }
}

} // verus!
