use vstd::prelude::*;
use vstd::arithmetic::div_mod::{lemma_fundamental_div_mod, lemma_mod_pos_bound};
use crate::mesh::Face;
use crate::raster::{barycentric, bary_spec, covers, tri_ok, Bary, Vec3, COORD_MAX, SUBPIXEL};
use crate::shade::{
    as_triple, brightness, brightness_spec, composite, composite_spec, dot_spec, flat_normal,
    flat_normal_spec, interp, interpolate, normal_ok, sample_spec, sample_texture, uvs_ok, Rgb,
    Texture,
};

verus! {

/// The depth every pixel starts from: below any depth a triangle can have.
pub const NEG_INF_DEPTH: i64 = i64::MIN;

/// The largest width or height of a render target.
pub const MAX_DIM: u32 = 65536;

/// A triangle in screen space: positions in sub-pixel units (depth in `z`),
/// with optional texture coordinates and vertex normals.
pub type ScreenFace = Face<Vec3, crate::shade::Uv, Vec3>;

/// The framebuffer and depth buffer of one frame, row by row from the bottom.
pub struct RenderCtx {
    pub width: u32,
    pub height: u32,
    pub framebuffer: Vec<Rgb>,
    pub zbuf: Vec<i64>,
}

/// Index of pixel `(x, y)` in a row-major buffer of the given width.
pub open spec fn pix(w: int, x: int, y: int) -> int {
    x + y * w
}

impl RenderCtx {
    pub open spec fn wf(&self) -> bool {
        &&& 1 <= self.width <= MAX_DIM
        &&& 1 <= self.height <= MAX_DIM
        &&& self.framebuffer@.len() == self.width * self.height
        &&& self.zbuf@.len() == self.width * self.height
    }

    /// A black frame whose depth buffer holds `NEG_INF_DEPTH` everywhere.
    pub fn new(width: u32, height: u32) -> (r: RenderCtx)
        requires
            1 <= width <= MAX_DIM,
            1 <= height <= MAX_DIM,
            width * height <= usize::MAX,
        ensures
            r.wf(),
            r.width == width,
            r.height == height,
            forall|i: int| 0 <= i < r.zbuf@.len() ==> r.zbuf@[i] == NEG_INF_DEPTH,
            forall|i: int| 0 <= i < r.framebuffer@.len() ==> r.framebuffer@[i] == (Rgb { r: 0, g: 0, b: 0 }),
    {
        let n = width as usize * height as usize;
        let mut framebuffer: Vec<Rgb> = Vec::new();
        let mut zbuf: Vec<i64> = Vec::new();
        let mut i: usize = 0;
        while i < n
            invariant
                i <= n,
                framebuffer@.len() == i,
                zbuf@.len() == i,
                forall|k: int| 0 <= k < i ==> zbuf@[k] == NEG_INF_DEPTH,
                forall|k: int| 0 <= k < i ==> framebuffer@[k] == (Rgb { r: 0, g: 0, b: 0 }),
            decreases n - i,
        {
            framebuffer.push(Rgb { r: 0, g: 0, b: 0 });
            zbuf.push(NEG_INF_DEPTH);
            i = i + 1;
        }
        RenderCtx { width, height, framebuffer, zbuf }
    }

    /// The colour of pixel `(x, y)`.
    pub fn pixel(&self, x: u32, y: u32) -> (r: Rgb)
        requires
            self.wf(),
            x < self.width,
            y < self.height,
        ensures
            r == self.framebuffer@[pix(self.width as int, x as int, y as int)],
    {
        self.framebuffer[self.index_of(x, y)]
    }

    /// The depth recorded at pixel `(x, y)`.
    pub fn depth(&self, x: u32, y: u32) -> (r: i64)
        requires
            self.wf(),
            x < self.width,
            y < self.height,
        ensures
            r == self.zbuf@[pix(self.width as int, x as int, y as int)],
    {
        self.zbuf[self.index_of(x, y)]
    }

    fn index_of(&self, x: u32, y: u32) -> (r: usize)
        requires
            self.wf(),
            x < self.width,
            y < self.height,
        ensures
            r == pix(self.width as int, x as int, y as int),
            r < self.zbuf@.len(),
    {
        let _n = self.zbuf.len();
        proof { lemma_pix_in_bounds(self.width as int, self.height as int, x as int, y as int); }
        x as usize + y as usize * self.width as usize
    }
}

proof fn lemma_pix_in_bounds(w: int, h: int, x: int, y: int)
    requires
        0 <= x < w,
        0 <= y < h,
    ensures
        0 <= y * w <= pix(w, x, y) < w * h,
{
    assert(0 <= y * w <= x + y * w < w * h) by (nonlinear_arith) requires 0 <= x < w, 0 <= y < h;
}

proof fn lemma_pix_injective(w: int, x1: int, y1: int, x2: int, y2: int)
    requires
        0 <= x1 < w,
        0 <= x2 < w,
        0 <= y1,
        0 <= y2,
        pix(w, x1, y1) == pix(w, x2, y2),
    ensures
        x1 == x2 && y1 == y2,
{
    if y1 < y2 {
        assert(y1 * w + w <= y2 * w) by (nonlinear_arith) requires y1 < y2, w > 0;
    } else if y2 < y1 {
        assert(y2 * w + w <= y1 * w) by (nonlinear_arith) requires y2 < y1, w > 0;
    }
}

pub open spec fn min3(a: int, b: int, c: int) -> int {
    if a <= b && a <= c { a } else if b <= c { b } else { c }
}

pub open spec fn max3(a: int, b: int, c: int) -> int {
    if a >= b && a >= c { a } else if b >= c { b } else { c }
}

/// The pixel's sample point lies within the triangle's bounding box.
pub open spec fn in_span(t: [Vec3; 3], x: int, y: int) -> bool {
    &&& min3(t[0].x as int, t[1].x as int, t[2].x as int) <= x * SUBPIXEL <= max3(t[0].x as int, t[1].x as int, t[2].x as int)
    &&& min3(t[0].y as int, t[1].y as int, t[2].y as int) <= y * SUBPIXEL <= max3(t[0].y as int, t[1].y as int, t[2].y as int)
}

/// The triangle's bounding box lies wholly outside the `w` by `h` pixel grid.
pub open spec fn bbox_outside(t: [Vec3; 3], w: int, h: int) -> bool {
    ||| max3(t[0].x as int, t[1].x as int, t[2].x as int) < 0
    ||| min3(t[0].x as int, t[1].x as int, t[2].x as int) > (w - 1) * SUBPIXEL
    ||| max3(t[0].y as int, t[1].y as int, t[2].y as int) < 0
    ||| min3(t[0].y as int, t[1].y as int, t[2].y as int) > (h - 1) * SUBPIXEL
}

/// Pixel `k` of an axis of `dim` pixels has its sample point between the
/// least and the greatest of three coordinates.
pub open spec fn on_axis(c0: int, c1: int, c2: int, dim: int, k: int) -> bool {
    0 <= k < dim && min3(c0, c1, c2) <= k * SUBPIXEL <= max3(c0, c1, c2)
}

/// The pixels `lo <= k < hi` of an axis of `dim` pixels whose sample
/// points lie between the least and the greatest of three coordinates.
pub fn axis_span(c0: i64, c1: i64, c2: i64, dim: u32) -> (r: (u32, u32))
    requires
        -COORD_MAX <= c0 <= COORD_MAX,
        -COORD_MAX <= c1 <= COORD_MAX,
        -COORD_MAX <= c2 <= COORD_MAX,
        1 <= dim <= MAX_DIM,
    ensures
        r.0 <= r.1 <= dim,
        forall|k: int| r.0 <= k < r.1 <==> #[trigger] on_axis(c0 as int, c1 as int, c2 as int, dim as int, k),
{
    let mn = if c0 <= c1 && c0 <= c2 { c0 } else if c1 <= c2 { c1 } else { c2 };
    let mx = if c0 >= c1 && c0 >= c2 { c0 } else if c1 >= c2 { c1 } else { c2 };
    let lo_c = if mn < 0 { 0 } else { mn };
    let top = (dim as i64 - 1) * SUBPIXEL;
    let hi_c = if mx > top { top } else { mx };
    if lo_c > hi_c {
        return (0, 0);
    }
    let lo = (lo_c + SUBPIXEL - 1) / SUBPIXEL;
    let hi = hi_c / SUBPIXEL + 1;
    if lo >= hi {
        return (0, 0);
    }
    (lo as u32, hi as u32)
}

/// The per-face lighting gate: the flat face normal points toward the light.
pub open spec fn lit(f: ScreenFace, light: Vec3) -> bool {
    dot_spec(flat_normal_spec(f.verts), light) > 0
}

/// The barycentric weights of pixel `(x, y)`'s sample point.
pub open spec fn weights_at(f: ScreenFace, x: int, y: int) -> Bary {
    bary_spec(f.verts, x * SUBPIXEL, y * SUBPIXEL)
}

/// The interpolated depth at the given weights.
pub open spec fn depth_at(f: ScreenFace, b: Bary) -> int {
    interp(b, f.verts[0].z as int, f.verts[1].z as int, f.verts[2].z as int)
}

/// The face passes the lighting gate, covers the pixel, and is nearer than
/// what the depth buffer holds there (a larger depth wins).
pub open spec fn accepted(f: ScreenFace, light: Vec3, x: int, y: int, old_z: int) -> bool {
    &&& lit(f, light)
    &&& in_span(f.verts, x, y)
    &&& covers(weights_at(f, x, y))
    &&& depth_at(f, weights_at(f, x, y)) > old_z
}

/// The normal used for lighting: the vertex normals interpolated with the
/// negated weights, or the flat face normal where the face has none.
pub open spec fn normal_at(f: ScreenFace, b: Bary) -> (int, int, int) {
    match f.normals {
        Some(ns) => (
            -interp(b, ns[0].x as int, ns[1].x as int, ns[2].x as int),
            -interp(b, ns[0].y as int, ns[1].y as int, ns[2].y as int),
            -interp(b, ns[0].z as int, ns[1].z as int, ns[2].z as int),
        ),
        None => flat_normal_spec(f.verts),
    }
}

/// The depth a pixel holds after the face is drawn.
pub open spec fn new_depth(f: ScreenFace, light: Vec3, x: int, y: int, old_z: i64) -> i64 {
    if accepted(f, light, x, y, old_z as int) {
        depth_at(f, weights_at(f, x, y)) as i64
    } else {
        old_z
    }
}

/// The colour a pixel holds after the face is drawn: accepted pixels that
/// the interpolated normal lights get the lit texel composited over them.
pub open spec fn new_color(f: ScreenFace, tex: Texture, light: Vec3, x: int, y: int, old_z: i64, old_c: Rgb) -> Rgb {
    let b = weights_at(f, x, y);
    let br = brightness_spec(normal_at(f, b), light);
    if accepted(f, light, x, y, old_z as int) && br > 0 && sample_spec(tex, f.tex_uvs, b) is Some {
        composite_spec(sample_spec(tex, f.tex_uvs, b).unwrap(), br, old_c)
    } else {
        old_c
    }
}

/// The pixel needs a texel, and its texture coordinate falls off the
/// texture: an accepted pixel that the interpolated normal lights.
pub open spec fn texel_fault(f: ScreenFace, tex: Texture, light: Vec3, x: int, y: int, old_z: i64) -> bool {
    let b = weights_at(f, x, y);
    &&& accepted(f, light, x, y, old_z as int)
    &&& brightness_spec(normal_at(f, b), light) > 0
    &&& sample_spec(tex, f.tex_uvs, b) is None
}

/// Some pixel of a frame `w` by `h` with depth buffer `z` has a texel fault.
pub open spec fn face_faults(z: Seq<i64>, w: int, h: int, f: ScreenFace, tex: Texture, light: Vec3) -> bool {
    exists|px: int, py: int| 0 <= px < w && 0 <= py < h
        && #[trigger] texel_fault(f, tex, light, px, py, z[pix(w, px, py)])
}

/// A pixel whose texture coordinate falls off the texture.
#[derive(Clone, Copy, Debug, PartialEq, Eq, Structural)]
pub struct TexelOffTexture {
    pub x: u32,
    pub y: u32,
}

/// The vertex data of the face is within the fixed-point ranges.
pub open spec fn face_ok(f: ScreenFace) -> bool {
    &&& tri_ok(f.verts)
    &&& uvs_ok(f.tex_uvs)
    &&& f.normals is Some ==> (normal_ok(f.normals.unwrap()[0]) && normal_ok(f.normals.unwrap()[1]) && normal_ok(f.normals.unwrap()[2]))
}


/// Shades one pixel of a lit face: the pixel's depth and colour after the
/// face is drawn, from what it held before.
fn shade_fragment(face: &ScreenFace, tex: &Texture, light: &Vec3, flat: &Vec3, x: u32, y: u32, old_z: i64, old_c: Rgb) -> (r: Option<(i64, Rgb)>)
    requires
        face_ok(*face),
        tex.wf(),
        normal_ok(*light),
        as_triple(*flat) == flat_normal_spec(face.verts),
        crate::shade::lighting_ok(*flat),
        lit(*face, *light),
        in_span(face.verts, x as int, y as int),
        x < MAX_DIM,
        y < MAX_DIM,
    ensures
        r is None <==> texel_fault(*face, *tex, *light, x as int, y as int, old_z),
        r is Some ==> r.unwrap().0 == new_depth(*face, *light, x as int, y as int, old_z)
            && r.unwrap().1 == new_color(*face, *tex, *light, x as int, y as int, old_z, old_c),
{
    let b = barycentric([x as i64 * SUBPIXEL, y as i64 * SUBPIXEL], &face.verts);
    if b.w0 < 0 || b.w1 < 0 || b.w2 < 0 {
        return Some((old_z, old_c));
    }
    let v = &face.verts;
    let z = interpolate(&b, v[0].z, v[1].z, v[2].z);
    if z <= old_z {
        return Some((old_z, old_c));
    }
    let n = match &face.normals {
        Some(ns) => Vec3 {
            x: -interpolate(&b, ns[0].x, ns[1].x, ns[2].x),
            y: -interpolate(&b, ns[0].y, ns[1].y, ns[2].y),
            z: -interpolate(&b, ns[0].z, ns[1].z, ns[2].z),
        },
        None => *flat,
    };
    let br = brightness(&n, light);
    if br <= 0 {
        return Some((z, old_c));
    }
    match sample_texture(tex, &face.tex_uvs, &b) {
        Some(t) => Some((z, composite(&t, br, &old_c))),
        None => None,
    }
}

/// Drawing a face never lowers a pixel's depth.
pub proof fn lemma_new_depth_monotone(f: ScreenFace, light: Vec3, x: int, y: int, old_z: i64)
    requires
        face_ok(f),
        0 <= x < MAX_DIM,
        0 <= y < MAX_DIM,
    ensures
        new_depth(f, light, x, y, old_z) >= old_z,
{
    if accepted(f, light, x, y, old_z as int) {
        let b = weights_at(f, x, y);
        crate::raster::lemma_covered_weights_convex(f.verts, x * SUBPIXEL, y * SUBPIXEL);
        crate::shade::lemma_convex_sum(b, f.verts[0].z as int, f.verts[1].z as int, f.verts[2].z as int, COORD_MAX as int);
    }
}

/// Pixel `(px, py)`, at index `i`, holds what drawing the face gives if
/// `drawn`, and what it held before otherwise.
pub open spec fn pixel_drawn(ctx: RenderCtx, old: RenderCtx, face: ScreenFace, tex: Texture, light: Vec3, drawn: bool, px: int, py: int, i: int) -> bool {
    &&& ctx.zbuf@[i] == (if drawn { new_depth(face, light, px, py, old.zbuf@[i]) } else { old.zbuf@[i] })
    &&& ctx.framebuffer@[i] == (if drawn {
        new_color(face, tex, light, px, py, old.zbuf@[i], old.framebuffer@[i])
    } else {
        old.framebuffer@[i]
    })
    &&& drawn ==> !texel_fault(face, tex, light, px, py, old.zbuf@[i])
}

/// Columns `xl <= px < x` of rows `yl <= py < yh` are finished, and so are
/// rows `yl <= py < y` of column `x`.
pub open spec fn done_region(xl: int, x: int, yl: int, yh: int, y: int, px: int, py: int) -> bool {
    (xl <= px < x && yl <= py < yh) || (px == x && yl <= py < y)
}

/// The finished pixels hold what drawing the face gives; the others hold
/// what they held before.
pub open spec fn drawn_where(
    ctx: RenderCtx,
    old: RenderCtx,
    face: ScreenFace,
    tex: Texture,
    light: Vec3,
    xl: int, x: int, yl: int, yh: int, y: int,
) -> bool {
    forall|px: int, py: int| 0 <= px < ctx.width && 0 <= py < ctx.height ==>
        pixel_drawn(ctx, old, face, tex, light, done_region(xl, x, yl, yh, y, px, py), px, py,
            #[trigger] pix(ctx.width as int, px, py))
}

/// The depth buffer of a frame `w` pixels wide after the face is drawn.
pub open spec fn depth_after(z: Seq<i64>, w: int, face: ScreenFace, light: Vec3) -> Seq<i64> {
    Seq::new(z.len(), |i: int| new_depth(face, light, i % w, i / w, z[i]))
}

/// The framebuffer of a frame `w` pixels wide after the face is drawn.
pub open spec fn color_after(z: Seq<i64>, fb: Seq<Rgb>, w: int, face: ScreenFace, tex: Texture, light: Vec3) -> Seq<Rgb> {
    Seq::new(fb.len(), |i: int| new_color(face, tex, light, i % w, i / w, z[i], fb[i]))
}

/// The depth buffer and framebuffer after the faces are drawn in order.
pub open spec fn frame_after(z: Seq<i64>, fb: Seq<Rgb>, w: int, faces: Seq<ScreenFace>, tex: Texture, light: Vec3) -> (Seq<i64>, Seq<Rgb>)
    decreases faces.len(),
{
    if faces.len() == 0 {
        (z, fb)
    } else {
        let (z1, fb1) = frame_after(z, fb, w, faces.drop_last(), tex, light);
        (depth_after(z1, w, faces.last(), light), color_after(z1, fb1, w, faces.last(), tex, light))
    }
}

proof fn lemma_pixel_of_index(w: int, h: int, i: int)
    requires
        w >= 1,
        0 <= i < w * h,
    ensures
        0 <= i % w < w,
        0 <= i / w < h,
        pix(w, i % w, i / w) == i,
{
    lemma_fundamental_div_mod(i, w);
    lemma_mod_pos_bound(i, w);
    let q = i / w;
    let r = i % w;
    assert(0 <= q < h) by (nonlinear_arith)
        requires i == w * q + r, 0 <= r < w, 0 <= i < w * h, w >= 1;
    assert(pix(w, r, q) == i) by (nonlinear_arith) requires i == w * q + r;
}

/// Across any sequence of draws, no pixel's depth ever decreases.
pub proof fn lemma_depth_monotone_over_draws(z: Seq<i64>, fb: Seq<Rgb>, w: int, faces: Seq<ScreenFace>, tex: Texture, light: Vec3, i: int)
    requires
        1 <= w <= MAX_DIM,
        z.len() == fb.len(),
        z.len() <= w * MAX_DIM,
        forall|k: int| 0 <= k < faces.len() ==> face_ok(#[trigger] faces[k]),
        0 <= i < z.len(),
    ensures
        frame_after(z, fb, w, faces, tex, light).0.len() == z.len(),
        frame_after(z, fb, w, faces, tex, light).1.len() == z.len(),
        frame_after(z, fb, w, faces, tex, light).0[i] >= z[i],
    decreases faces.len(),
{
    if faces.len() > 0 {
        let rest = faces.drop_last();
        assert forall|k: int| 0 <= k < rest.len() implies face_ok(#[trigger] rest[k]) by {
            assert(rest[k] == faces[k]);
        }
        lemma_depth_monotone_over_draws(z, fb, w, rest, tex, light, i);
        let (z1, fb1) = frame_after(z, fb, w, rest, tex, light);
        lemma_pixel_of_index(w, MAX_DIM as int, i);
        assert(face_ok(faces[faces.len() - 1]));
        lemma_new_depth_monotone(faces.last(), light, i % w, i / w, z1[i]);
    }
}

/// Draws one screen-space face into the frame: every pixel of the canvas
/// ends up with the depth and colour that `new_depth` and `new_color` give
/// from what it held before. Depths never decrease, and a face whose bounding
/// box lies outside the canvas leaves the frame untouched. Fails, naming a
/// pixel, exactly when some pixel needs a texel off the texture; the frame
/// is then left partly drawn.
pub fn draw_tri(ctx: &mut RenderCtx, face: &ScreenFace, tex_img: &Texture, light_vec: Vec3) -> (r: Result<(), TexelOffTexture>)
    requires
        old(ctx).wf(),
        face_ok(*face),
        tex_img.wf(),
        normal_ok(light_vec),
    ensures
        final(ctx).wf(),
        final(ctx).width == old(ctx).width,
        final(ctx).height == old(ctx).height,
        r is Ok <==> !face_faults(old(ctx).zbuf@, old(ctx).width as int, old(ctx).height as int, *face, *tex_img, light_vec),
        r matches Err(e) ==> e.x < old(ctx).width && e.y < old(ctx).height
            && texel_fault(*face, *tex_img, light_vec, e.x as int, e.y as int, old(ctx).zbuf@[pix(old(ctx).width as int, e.x as int, e.y as int)]),
        r is Ok ==> forall|px: int, py: int| 0 <= px < old(ctx).width && 0 <= py < old(ctx).height ==>
            #[trigger] final(ctx).zbuf@[pix(old(ctx).width as int, px, py)] >= old(ctx).zbuf@[pix(old(ctx).width as int, px, py)],
        bbox_outside(face.verts, old(ctx).width as int, old(ctx).height as int) ==> r is Ok && final(ctx).zbuf@ == old(ctx).zbuf@
            && final(ctx).framebuffer@ == old(ctx).framebuffer@,
        r is Ok ==> final(ctx).zbuf@ == depth_after(old(ctx).zbuf@, old(ctx).width as int, *face, light_vec),
        r is Ok ==> final(ctx).framebuffer@ == color_after(old(ctx).zbuf@, old(ctx).framebuffer@, old(ctx).width as int, *face, *tex_img, light_vec),
{
    let ghost before = *ctx;
    let ghost w = before.width as int;
    let ghost h = before.height as int;
    let r = draw_tri_pixels(ctx, face, tex_img, light_vec);
    if let Err(e) = r {
        proof {
            assert(texel_fault(*face, *tex_img, light_vec, e.x as int, e.y as int, before.zbuf@[pix(w, e.x as int, e.y as int)]));
        }
        return r;
    }
    proof {
        assert forall|px: int, py: int| 0 <= px < w && 0 <= py < h implies
            !texel_fault(*face, *tex_img, light_vec, px, py, before.zbuf@[pix(w, px, py)]) by {
            assert(pixel_drawn(*ctx, before, *face, *tex_img, light_vec, true, px, py, pix(w, px, py)));
        }
        assert forall|i: int| 0 <= i < before.zbuf@.len() implies
            ctx.zbuf@[i] == depth_after(before.zbuf@, w, *face, light_vec)[i]
            && ctx.framebuffer@[i] == color_after(before.zbuf@, before.framebuffer@, w, *face, *tex_img, light_vec)[i] by {
            lemma_pixel_of_index(w, h, i);
            assert(pix(w, i % w, i / w) == i);
        }
        assert(ctx.zbuf@ =~= depth_after(before.zbuf@, w, *face, light_vec));
        assert(ctx.framebuffer@ =~= color_after(before.zbuf@, before.framebuffer@, w, *face, *tex_img, light_vec));
    }
    r
}

/// Visits the pixels of the face's bounding box, column by column, and
/// shades each one from what it held before.
fn draw_tri_pixels(ctx: &mut RenderCtx, face: &ScreenFace, tex_img: &Texture, light_vec: Vec3) -> (r: Result<(), TexelOffTexture>)
    requires
        old(ctx).wf(),
        face_ok(*face),
        tex_img.wf(),
        normal_ok(light_vec),
    ensures
        final(ctx).wf(),
        final(ctx).width == old(ctx).width,
        final(ctx).height == old(ctx).height,
        r matches Err(e) ==> e.x < old(ctx).width && e.y < old(ctx).height
            && texel_fault(*face, *tex_img, light_vec, e.x as int, e.y as int, old(ctx).zbuf@[pix(old(ctx).width as int, e.x as int, e.y as int)]),
        r is Ok ==> forall|px: int, py: int| 0 <= px < old(ctx).width && 0 <= py < old(ctx).height ==>
            pixel_drawn(*final(ctx), *old(ctx), *face, *tex_img, light_vec, true, px, py,
                #[trigger] pix(old(ctx).width as int, px, py)),
        r is Ok ==> forall|px: int, py: int| 0 <= px < old(ctx).width && 0 <= py < old(ctx).height ==>
            #[trigger] final(ctx).zbuf@[pix(old(ctx).width as int, px, py)] >= old(ctx).zbuf@[pix(old(ctx).width as int, px, py)],
        bbox_outside(face.verts, old(ctx).width as int, old(ctx).height as int) ==> r is Ok && final(ctx).zbuf@ == old(ctx).zbuf@
            && final(ctx).framebuffer@ == old(ctx).framebuffer@,
{
    let ghost old_ctx = *ctx;
    let ghost w = ctx.width as int;
    let ghost h = ctx.height as int;
    let flat = flat_normal(&face.verts);
    proof {
        let big: int = 0x1000000000000000;
        crate::shade::lemma_mul_abs(flat.x as int, light_vec.x as int, big, 0x10000);
        crate::shade::lemma_mul_abs(flat.y as int, light_vec.y as int, big, 0x10000);
        crate::shade::lemma_mul_abs(flat.z as int, light_vec.z as int, big, 0x10000);
    }
    let dot = flat.x as i128 * light_vec.x as i128 + flat.y as i128 * light_vec.y as i128 + flat.z as i128 * light_vec.z as i128;
    let v = &face.verts;
    let (xl, xh) = axis_span(v[0].x, v[1].x, v[2].x, ctx.width);
    let (yl, yh) = axis_span(v[0].y, v[1].y, v[2].y, ctx.height);
    if dot <= 0 || xl >= xh || yl >= yh {
        proof {
            assert forall|px: int, py: int| 0 <= px < w && 0 <= py < h implies !accepted(*face, light_vec, px, py, old_ctx.zbuf@[pix(w, px, py)] as int) by {
                if in_span(face.verts, px, py) {
                    assert(on_axis(face.verts[0].x as int, face.verts[1].x as int, face.verts[2].x as int, w, px));
                    assert(on_axis(face.verts[0].y as int, face.verts[1].y as int, face.verts[2].y as int, h, py));
                }
            }
            if bbox_outside(face.verts, w, h) {
                assert(!on_axis(face.verts[0].x as int, face.verts[1].x as int, face.verts[2].x as int, w, xl as int)
                    || !on_axis(face.verts[0].y as int, face.verts[1].y as int, face.verts[2].y as int, h, yl as int));
            }
        }
        return Ok(());
    }
    let mut x = xl;
    while x < xh
        invariant
            ctx.wf(),
            ctx.width == old_ctx.width,
            ctx.height == old_ctx.height,
            old_ctx.wf(),
            old_ctx == *old(ctx),
            w == ctx.width,
            h == ctx.height,
            face_ok(*face),
            tex_img.wf(),
            normal_ok(light_vec),
            as_triple(flat) == flat_normal_spec(face.verts),
            crate::shade::lighting_ok(flat),
            lit(*face, light_vec),
            xl <= x <= xh <= w,
            yl < yh <= h,
            forall|k: int| xl <= k < xh <==> #[trigger] on_axis(face.verts[0].x as int, face.verts[1].x as int, face.verts[2].x as int, w, k),
            forall|k: int| yl <= k < yh <==> #[trigger] on_axis(face.verts[0].y as int, face.verts[1].y as int, face.verts[2].y as int, h, k),
            drawn_where(*ctx, old_ctx, *face, *tex_img, light_vec, xl as int, x as int, yl as int, yh as int, yl as int),
        decreases xh - x,
    {
        let mut y = yl;
        while y < yh
            invariant
                ctx.wf(),
                ctx.width == old_ctx.width,
                ctx.height == old_ctx.height,
                old_ctx.wf(),
                old_ctx == *old(ctx),
                w == ctx.width,
                h == ctx.height,
                face_ok(*face),
                tex_img.wf(),
                normal_ok(light_vec),
                as_triple(flat) == flat_normal_spec(face.verts),
                crate::shade::lighting_ok(flat),
                lit(*face, light_vec),
                xl <= x < xh <= w,
                yl <= y <= yh <= h,
                forall|k: int| xl <= k < xh <==> #[trigger] on_axis(face.verts[0].x as int, face.verts[1].x as int, face.verts[2].x as int, w, k),
                forall|k: int| yl <= k < yh <==> #[trigger] on_axis(face.verts[0].y as int, face.verts[1].y as int, face.verts[2].y as int, h, k),
                drawn_where(*ctx, old_ctx, *face, *tex_img, light_vec, xl as int, x as int, yl as int, yh as int, y as int),
            decreases yh - y,
        {
            let i = ctx.index_of(x, y);
            proof {
                assert(on_axis(face.verts[0].x as int, face.verts[1].x as int, face.verts[2].x as int, w, x as int));
                assert(on_axis(face.verts[0].y as int, face.verts[1].y as int, face.verts[2].y as int, h, y as int));
                assert(pix(w, x as int, y as int) == i);
                assert(in_span(face.verts, x as int, y as int));
            }
            let old_z = ctx.zbuf[i];
            let old_c = ctx.framebuffer[i];
            let frag = shade_fragment(face, tex_img, &light_vec, &flat, x, y, old_z, old_c);
            let (z, c) = match frag {
                Some(zc) => zc,
                None => {
                    proof {
                        assert(pixel_drawn(*ctx, old_ctx, *face, *tex_img, light_vec,
                            done_region(xl as int, x as int, yl as int, yh as int, y as int, x as int, y as int), x as int, y as int, pix(w, x as int, y as int)));
                    }
                    return Err(TexelOffTexture { x, y });
                },
            };
            let ghost before = *ctx;
            ctx.zbuf.set(i, z);
            ctx.framebuffer.set(i, c);
            proof {
                assert forall|px: int, py: int| 0 <= px < w && 0 <= py < h && pix(w, px, py) == i implies px == x && py == y by {
                    lemma_pix_injective(w, px, py, x as int, y as int);
                }
                assert forall|px: int, py: int| 0 <= px < w && 0 <= py < h implies 0 <= #[trigger] pix(w, px, py) < w * h by {
                    lemma_pix_in_bounds(w, h, px, py);
                }
            }
            y = y + 1;
        }
        proof {
            assert forall|px: int, py: int| 0 <= px < w && 0 <= py < h implies
                done_region(xl as int, x as int, yl as int, yh as int, yh as int, px, py)
                == done_region(xl as int, x + 1, yl as int, yh as int, yl as int, px, py)
                && #[trigger] pix(w, px, py) == pix(w, px, py) by {}
        }
        x = x + 1;
    }
    proof {
        assert forall|px: int, py: int| 0 <= px < w && 0 <= py < h implies
            (xl <= px < xh && yl <= py < yh) == in_span(face.verts, px, py) by {
            assert(on_axis(face.verts[0].x as int, face.verts[1].x as int, face.verts[2].x as int, w, px) == (xl <= px < xh));
            assert(on_axis(face.verts[0].y as int, face.verts[1].y as int, face.verts[2].y as int, h, py) == (yl <= py < yh));
        }
        assert forall|px: int, py: int| 0 <= px < w && 0 <= py < h implies
            #[trigger] ctx.zbuf@[pix(w, px, py)] >= old_ctx.zbuf@[pix(w, px, py)] by {
            lemma_new_depth_monotone(*face, light_vec, px, py, old_ctx.zbuf@[pix(w, px, py)]);
        }
        assert(on_axis(face.verts[0].x as int, face.verts[1].x as int, face.verts[2].x as int, w, xl as int));
        assert(on_axis(face.verts[0].y as int, face.verts[1].y as int, face.verts[2].y as int, h, yl as int));
    }
    Ok(())
}


/// None of the first `n` faces has a texel fault on the frame that the
/// faces before it left.
pub open spec fn draws_clean(z: Seq<i64>, fb: Seq<Rgb>, w: int, h: int, faces: Seq<ScreenFace>, tex: Texture, light: Vec3, n: int) -> bool {
    forall|k: int| 0 <= k < n ==>
        !face_faults(#[trigger] frame_after(z, fb, w, faces.subrange(0, k), tex, light).0, w, h, faces[k], tex, light)
}

/// Draws the faces in order: the frame ends as `frame_after` gives, and no
/// pixel's depth decreases. Stops at the first face with a texel fault,
/// giving its position in `faces` and the pixel.
pub fn draw_faces(ctx: &mut RenderCtx, faces: &Vec<ScreenFace>, tex_img: &Texture, light_vec: Vec3) -> (r: Result<(), (usize, TexelOffTexture)>)
    requires
        old(ctx).wf(),
        forall|k: int| 0 <= k < faces@.len() ==> face_ok(#[trigger] faces@[k]),
        tex_img.wf(),
        normal_ok(light_vec),
    ensures
        final(ctx).wf(),
        final(ctx).width == old(ctx).width,
        final(ctx).height == old(ctx).height,
        r is Ok ==> draws_clean(old(ctx).zbuf@, old(ctx).framebuffer@, old(ctx).width as int, old(ctx).height as int,
            faces@, *tex_img, light_vec, faces@.len() as int),
        r is Ok ==> (final(ctx).zbuf@, final(ctx).framebuffer@)
            == frame_after(old(ctx).zbuf@, old(ctx).framebuffer@, old(ctx).width as int, faces@, *tex_img, light_vec),
        r is Ok ==> forall|i: int| 0 <= i < old(ctx).zbuf@.len() ==> #[trigger] final(ctx).zbuf@[i] >= old(ctx).zbuf@[i],
        r matches Err((k, e)) ==> k < faces@.len()
            && draws_clean(old(ctx).zbuf@, old(ctx).framebuffer@, old(ctx).width as int, old(ctx).height as int,
                faces@, *tex_img, light_vec, k as int)
            && e.x < old(ctx).width && e.y < old(ctx).height
            && texel_fault(faces@[k as int], *tex_img, light_vec, e.x as int, e.y as int,
                frame_after(old(ctx).zbuf@, old(ctx).framebuffer@, old(ctx).width as int, faces@.subrange(0, k as int), *tex_img, light_vec).0[
                    pix(old(ctx).width as int, e.x as int, e.y as int)]),
{
    let ghost start = *ctx;
    let ghost w = ctx.width as int;
    let ghost h = ctx.height as int;
    let mut k: usize = 0;
    while k < faces.len()
        invariant
            ctx.wf(),
            ctx.width == start.width,
            ctx.height == start.height,
            w == start.width,
            h == start.height,
            start == *old(ctx),
            k <= faces@.len(),
            forall|j: int| 0 <= j < faces@.len() ==> face_ok(#[trigger] faces@[j]),
            tex_img.wf(),
            normal_ok(light_vec),
            (ctx.zbuf@, ctx.framebuffer@) == frame_after(start.zbuf@, start.framebuffer@, w, faces@.subrange(0, k as int), *tex_img, light_vec),
            draws_clean(start.zbuf@, start.framebuffer@, w, h, faces@, *tex_img, light_vec, k as int),
        decreases faces@.len() - k,
    {
        let ghost before = *ctx;
        match draw_tri(ctx, &faces[k], tex_img, light_vec) {
            Ok(()) => {},
            Err(e) => return Err((k, e)),
        }
        proof {
            let next = faces@.subrange(0, k + 1);
            assert(next.drop_last() =~= faces@.subrange(0, k as int));
            assert(next.last() == faces@[k as int]);
            assert forall|j: int| 0 <= j < k + 1 implies
                !face_faults(#[trigger] frame_after(start.zbuf@, start.framebuffer@, w, faces@.subrange(0, j), *tex_img, light_vec).0,
                    w, h, faces@[j], *tex_img, light_vec) by {
                if j < k {
                } else {
                    assert(before.zbuf@ == frame_after(start.zbuf@, start.framebuffer@, w, faces@.subrange(0, j), *tex_img, light_vec).0);
                }
            }
        }
        k = k + 1;
    }
    proof {
        assert(faces@.subrange(0, faces@.len() as int) =~= faces@);
        assert forall|i: int| 0 <= i < start.zbuf@.len() implies #[trigger] ctx.zbuf@[i] >= start.zbuf@[i] by {
            assert(start.wf());
            assert(start.zbuf@.len() <= w * MAX_DIM) by (nonlinear_arith)
                requires start.zbuf@.len() == w * start.height, start.height <= MAX_DIM, w >= 1;
            lemma_depth_monotone_over_draws(start.zbuf@, start.framebuffer@, w, faces@, *tex_img, light_vec, i);
        }
    }
    Ok(())
}

} // verus!
