use vstd::prelude::*;

verus! {

/// Sub-pixel units per pixel on the screen's x and y axes.
pub const SUBPIXEL: i64 = 16;

/// The largest magnitude of a screen-space coordinate or depth.
pub const COORD_MAX: i64 = 1048576;

/// A doubled signed area below this magnitude (in squared sub-pixel units)
/// marks a triangle as degenerate.
pub const DEGENERATE_AREA: i64 = 3;

/// A point or vector with fixed-point components.
#[derive(Clone, Copy, Debug, PartialEq, Eq, Structural)]
pub struct Vec3 {
    pub x: i64,
    pub y: i64,
    pub z: i64,
}

/// Barycentric weights as fractions over a common positive denominator:
/// the weight of vertex `i` is `wi / den`.
#[derive(Clone, Copy, Debug, PartialEq, Eq, Structural)]
pub struct Bary {
    pub w0: i128,
    pub w1: i128,
    pub w2: i128,
    pub den: i128,
}

pub open spec fn coord_ok(c: int) -> bool {
    -(COORD_MAX as int) <= c <= COORD_MAX as int
}

pub open spec fn point_ok(p: Vec3) -> bool {
    coord_ok(p.x as int) && coord_ok(p.y as int) && coord_ok(p.z as int)
}

/// All three vertices lie within the representable screen range.
pub open spec fn tri_ok(t: [Vec3; 3]) -> bool {
    point_ok(t[0]) && point_ok(t[1]) && point_ok(t[2])
}

/// Twice the signed area of the triangle `a, b, (px, py)`: positive when the
/// point lies to the left of the directed edge from `a` to `b`.
pub open spec fn edge(a: Vec3, b: Vec3, px: int, py: int) -> int {
    (b.x - a.x) * (py - a.y) - (b.y - a.y) * (px - a.x)
}

/// Twice the signed area of a triangle.
pub open spec fn area2(t: [Vec3; 3]) -> int {
    edge(t[0], t[1], t[2].x as int, t[2].y as int)
}

pub open spec fn degenerate(t: [Vec3; 3]) -> bool {
    -(DEGENERATE_AREA as int) < area2(t) < DEGENERATE_AREA as int
}

/// The weights reported for every point of a degenerate triangle: outside.
pub open spec fn outside_weights() -> Bary {
    Bary { w0: -1i128, w1: 0, w2: 0, den: 1 }
}

/// The barycentric weights of `(px, py)`: each vertex's weight is the signed
/// area of the sub-triangle facing it over the triangle's own area.
pub open spec fn bary_spec(t: [Vec3; 3], px: int, py: int) -> Bary {
    if degenerate(t) {
        outside_weights()
    } else {
        Bary {
            w0: oriented(t, edge(t[1], t[2], px, py)) as i128,
            w1: oriented(t, edge(t[2], t[0], px, py)) as i128,
            w2: oriented(t, edge(t[0], t[1], px, py)) as i128,
            den: oriented(t, area2(t)) as i128,
        }
    }
}

/// A signed area taken relative to the triangle's winding.
pub open spec fn oriented(t: [Vec3; 3], e: int) -> int {
    if area2(t) > 0 { e } else { -e }
}

/// The point lies in the triangle or on its edges.
pub open spec fn covers(b: Bary) -> bool {
    b.w0 >= 0 && b.w1 >= 0 && b.w2 >= 0
}

/// On the inner side of (or on) each of the triangle's three edges.
pub open spec fn inside(t: [Vec3; 3], px: int, py: int) -> bool {
    &&& edge(t[1], t[2], px, py) * area2(t) >= 0
    &&& edge(t[2], t[0], px, py) * area2(t) >= 0
    &&& edge(t[0], t[1], px, py) * area2(t) >= 0
}

/// Strictly on the outer side of at least one of the triangle's edges.
pub open spec fn strictly_outside(t: [Vec3; 3], px: int, py: int) -> bool {
    ||| edge(t[1], t[2], px, py) * area2(t) < 0
    ||| edge(t[2], t[0], px, py) * area2(t) < 0
    ||| edge(t[0], t[1], px, py) * area2(t) < 0
}

proof fn lemma_edge_bound(a: Vec3, b: Vec3, px: int, py: int)
    requires
        point_ok(a),
        point_ok(b),
        coord_ok(px),
        coord_ok(py),
    ensures
        -0x200000000000 <= edge(a, b, px, py) <= 0x200000000000,
{
    lemma_prod_bound(b.x - a.x, py - a.y);
    lemma_prod_bound(b.y - a.y, px - a.x);
}

proof fn lemma_expand(a: int, b: int, c: int, d: int)
    ensures
        (a - b) * (c - d) == a * c - a * d - b * c + b * d,
{
    assert((a - b) * (c - d) == a * c - a * d - b * c + b * d) by (nonlinear_arith);
}

proof fn lemma_prod_bound(a: int, b: int)
    requires
        -0x400000 <= a <= 0x400000,
        -0x400000 <= b <= 0x400000,
    ensures
        -0x100000000000 <= a * b <= 0x100000000000,
{
    assert(-0x100000000000 <= a * b <= 0x100000000000) by (nonlinear_arith)
        requires -0x400000 <= a <= 0x400000, -0x400000 <= b <= 0x400000;
}

/// The three sub-triangle areas add up to the whole triangle's area.
proof fn lemma_edges_sum(t: [Vec3; 3], px: int, py: int)
    ensures
        edge(t[1], t[2], px, py) + edge(t[2], t[0], px, py) + edge(t[0], t[1], px, py) == area2(t),
{
    let x0 = t[0].x as int;
    let y0 = t[0].y as int;
    let x1 = t[1].x as int;
    let y1 = t[1].y as int;
    let x2 = t[2].x as int;
    let y2 = t[2].y as int;
    lemma_expand(x2, x1, py, y1);
    lemma_expand(y2, y1, px, x1);
    lemma_expand(x0, x2, py, y2);
    lemma_expand(y0, y2, px, x2);
    lemma_expand(x1, x0, py, y0);
    lemma_expand(y1, y0, px, x0);
    lemma_expand(x1, x0, y2, y0);
    lemma_expand(y1, y0, x2, x0);
    assert(x1 * y2 == y2 * x1) by (nonlinear_arith);
    assert(x0 * y1 == y1 * x0) by (nonlinear_arith);
    assert(x2 * y0 == y0 * x2) by (nonlinear_arith);
    assert(x1 * y0 == y0 * x1) by (nonlinear_arith);
    assert(x2 * y1 == y1 * x2) by (nonlinear_arith);
    assert(x0 * y2 == y2 * x0) by (nonlinear_arith);
}

/// Barycentric weights of the point `p` on the triangle `points`, by the
/// cross product of the edge vectors from the first vertex. Degenerate
/// triangles report every point as outside.
pub fn barycentric(p: [i64; 2], points: &[Vec3; 3]) -> (r: Bary)
    requires
        tri_ok(*points),
        coord_ok(p[0] as int),
        coord_ok(p[1] as int),
    ensures
        r == bary_spec(*points, p[0] as int, p[1] as int),
        0 < r.den <= 0x200000000000,
        !degenerate(*points) ==> r.w0 + r.w1 + r.w2 == r.den,
{
    let t = *points;
    let ax: i128 = t[2].x as i128 - t[0].x as i128;
    let ay: i128 = t[1].x as i128 - t[0].x as i128;
    let az: i128 = t[0].x as i128 - p[0] as i128;
    let bx: i128 = t[2].y as i128 - t[0].y as i128;
    let by: i128 = t[1].y as i128 - t[0].y as i128;
    let bz: i128 = t[0].y as i128 - p[1] as i128;
    let ghost (px, py) = (p[0] as int, p[1] as int);
    proof {
        lemma_edge_bound(t[0], t[1], px, py);
        lemma_edge_bound(t[2], t[0], px, py);
        lemma_edge_bound(t[0], t[1], t[2].x as int, t[2].y as int);
        lemma_edge_bound(t[0], t[2], px, py);
        lemma_edges_sum(t, px, py);
        lemma_prod_bound(ay as int, bz as int);
        lemma_prod_bound(az as int, by as int);
        lemma_prod_bound(az as int, bx as int);
        lemma_prod_bound(ax as int, bz as int);
        lemma_prod_bound(ax as int, by as int);
        lemma_prod_bound(ay as int, bx as int);
        assert(ay * bz - az * by == -edge(t[0], t[1], px, py)) by (nonlinear_arith)
            requires ay == t[1].x - t[0].x, az == t[0].x - px, by == t[1].y - t[0].y, bz == t[0].y - py;
        assert(az * bx - ax * bz == -edge(t[2], t[0], px, py)) by (nonlinear_arith)
            requires ax == t[2].x - t[0].x, az == t[0].x - px, bx == t[2].y - t[0].y, bz == t[0].y - py;
        assert(ax * by - ay * bx == -area2(t)) by (nonlinear_arith)
            requires ax == t[2].x - t[0].x, ay == t[1].x - t[0].x, bx == t[2].y - t[0].y, by == t[1].y - t[0].y;
    }
    let ux: i128 = ay * bz - az * by;
    let uy: i128 = az * bx - ax * bz;
    let uz: i128 = ax * by - ay * bx;
    if -(DEGENERATE_AREA as i128) < uz && uz < DEGENERATE_AREA as i128 {
        return Bary { w0: -1, w1: 0, w2: 0, den: 1 };
    }
    if uz < 0 {
        Bary { w0: uz - ux - uy, w1: uy, w2: ux, den: uz }.negated()
    } else {
        Bary { w0: uz - ux - uy, w1: uy, w2: ux, den: uz }
    }
}

impl Bary {
    fn negated(self) -> (r: Bary)
        requires
            -0x1000000000000 <= self.w0 <= 0x1000000000000,
            -0x1000000000000 <= self.w1 <= 0x1000000000000,
            -0x1000000000000 <= self.w2 <= 0x1000000000000,
            -0x1000000000000 <= self.den <= 0x1000000000000,
        ensures
            r.w0 == -self.w0 && r.w1 == -self.w1 && r.w2 == -self.w2 && r.den == -self.den,
    {
        Bary { w0: -self.w0, w1: -self.w1, w2: -self.w2, den: -self.den }
    }
}

/// Inside a non-degenerate triangle (edges included) every weight is
/// non-negative and the weights sum to exactly one.
pub proof fn lemma_interior_weights(t: [Vec3; 3], px: int, py: int)
    requires
        tri_ok(t),
        coord_ok(px),
        coord_ok(py),
        !degenerate(t),
        inside(t, px, py),
    ensures
        covers(bary_spec(t, px, py)),
        bary_spec(t, px, py).den > 0,
        bary_spec(t, px, py).w0 + bary_spec(t, px, py).w1 + bary_spec(t, px, py).w2 == bary_spec(t, px, py).den,
{
    lemma_edges_sum(t, px, py);
    lemma_edge_bound(t[1], t[2], px, py);
    lemma_edge_bound(t[2], t[0], px, py);
    lemma_edge_bound(t[0], t[1], px, py);
    lemma_edge_bound(t[0], t[1], t[2].x as int, t[2].y as int);
    let a = area2(t);
    lemma_sign_agrees(edge(t[1], t[2], px, py), a);
    lemma_sign_agrees(edge(t[2], t[0], px, py), a);
    lemma_sign_agrees(edge(t[0], t[1], px, py), a);
}

proof fn lemma_sign_agrees(e: int, a: int)
    requires
        a != 0,
    ensures
        e * a >= 0 ==> (if a > 0 { e } else { -e }) >= 0,
        e * a < 0 ==> (if a > 0 { e } else { -e }) < 0,
{
    if a > 0 {
        assert(e * a >= 0 ==> e >= 0) by (nonlinear_arith) requires a > 0;
        assert(e * a < 0 ==> e < 0) by (nonlinear_arith) requires a > 0;
    } else {
        assert(e * a >= 0 ==> e <= 0) by (nonlinear_arith) requires a < 0;
        assert(e * a < 0 ==> e > 0) by (nonlinear_arith) requires a < 0;
    }
}

/// A point strictly outside one of a triangle's edges has a negative weight.
pub proof fn lemma_exterior_weight_negative(t: [Vec3; 3], px: int, py: int)
    requires
        tri_ok(t),
        coord_ok(px),
        coord_ok(py),
        strictly_outside(t, px, py),
    ensures
        !covers(bary_spec(t, px, py)),
{
    if !degenerate(t) {
        lemma_edge_bound(t[1], t[2], px, py);
        lemma_edge_bound(t[2], t[0], px, py);
        lemma_edge_bound(t[0], t[1], px, py);
        lemma_edge_bound(t[0], t[1], t[2].x as int, t[2].y as int);
        let a = area2(t);
        lemma_sign_agrees(edge(t[1], t[2], px, py), a);
        lemma_sign_agrees(edge(t[2], t[0], px, py), a);
        lemma_sign_agrees(edge(t[0], t[1], px, py), a);
    }
}


/// Weights that cover a point are non-negative fractions of a bounded
/// positive denominator, summing to one.
pub proof fn lemma_covered_weights_convex(t: [Vec3; 3], px: int, py: int)
    requires
        tri_ok(t),
        coord_ok(px),
        coord_ok(py),
        covers(bary_spec(t, px, py)),
    ensures
        crate::shade::convex(bary_spec(t, px, py)),
{
    lemma_edges_sum(t, px, py);
    lemma_edge_bound(t[1], t[2], px, py);
    lemma_edge_bound(t[2], t[0], px, py);
    lemma_edge_bound(t[0], t[1], px, py);
    lemma_edge_bound(t[0], t[1], t[2].x as int, t[2].y as int);
}

} // verus!
