use softrast::{
    axis_span, barycentric, brightness, composite, deindex_face, draw_faces, draw_tri, flat_normal,
    floor_div, interpolate, resolve_face, resolve_faces, resolve_index, sample_texture, texel_coords,
    wrap_indices, Bary, Face, FaceIndex, GfxObject, MeshError, RenderCtx, Rgb, Rgba, ScreenFace,
    Texture, Uv, Vec3, NEG_INF_DEPTH, SUBPIXEL, UNIT,
};

fn v(x: i64, y: i64, z: i64) -> Vec3 {
    Vec3 { x, y, z }
}

fn plain_face(a: Vec3, b: Vec3, c: Vec3) -> ScreenFace {
    Face { verts: [a, b, c], tex_uvs: None, normals: None }
}

fn empty_texture() -> Texture {
    Texture { width: 0, height: 0, texels: Vec::new() }
}

fn light_down() -> Vec3 {
    v(0, 0, -UNIT)
}

#[test]
fn negative_index_wraps_from_final_pool_size() {
    assert_eq!(resolve_index(-1, 10), Some(9));
    assert_eq!(resolve_index(10, 10), Some(9));
    assert_eq!(resolve_index(-10, 10), Some(0));
    assert_eq!(resolve_index(1, 10), Some(0));
}

#[test]
fn bad_indices_do_not_resolve() {
    assert_eq!(resolve_index(0, 10), None);
    assert_eq!(resolve_index(11, 10), None);
    assert_eq!(resolve_index(-11, 10), None);
    assert_eq!(resolve_index(-1, 0), None);
    assert_eq!(resolve_index(i64::MIN, 10), None);
    assert_eq!(wrap_indices(&[1, -1, 2], 3), Some([0, 2, 1]));
    assert_eq!(wrap_indices(&[1, 4, 2], 3), None);
}

#[test]
fn texcoord_minus_one_on_four_elements_is_three() {
    assert_eq!(resolve_index(-1, 4), Some(3));
    let raw = FaceIndex { verts: [1, 2, 3], tex_uvs: Some([-1, 1, 2]), normals: None };
    let f = resolve_face(&raw, 3, 4, 0).unwrap();
    assert_eq!(f.tex_uvs, Some([3, 0, 1]));
}

#[test]
fn texel_at_uv_origin_is_bottom_row_of_flip() {
    assert_eq!(texel_coords(8, 8, Uv { u: 0, v: 0 }), (0, 8));
    assert_eq!(texel_coords(8, 8, Uv { u: UNIT, v: UNIT }), (8, 0));
    assert_eq!(texel_coords(8, 8, Uv { u: UNIT / 2, v: UNIT / 2 }), (4, 4));
    assert_eq!(texel_coords(10, 10, Uv { u: UNIT / 4, v: UNIT / 4 }), (3, 8));
}

#[test]
fn faces_resolve_against_final_pool_sizes() {
    // the first face names the last position before later ones are declared
    let raw = vec![
        FaceIndex { verts: [-1, 1, 2], tex_uvs: None, normals: None },
        FaceIndex { verts: [3, 4, 5], tex_uvs: None, normals: Some([-1, -2, -3]) },
    ];
    let fs = resolve_faces(&raw, 10, 0, 3).unwrap();
    assert_eq!(fs[0].verts, [9, 0, 1]);
    assert_eq!(fs[0].tex_uvs, None);
    assert_eq!(fs[1].verts, [2, 3, 4]);
    assert_eq!(fs[1].normals, Some([2, 1, 0]));
}

#[test]
fn each_mesh_error_has_its_input() {
    let bad_vert = FaceIndex { verts: [1, 2, 9], tex_uvs: None, normals: None };
    assert_eq!(resolve_face(&bad_vert, 3, 3, 3).err(), Some(MeshError::VertexIndexOutOfRange));
    let bad_tex = FaceIndex { verts: [1, 2, 3], tex_uvs: Some([1, 1, 1]), normals: None };
    assert_eq!(resolve_face(&bad_tex, 3, 0, 3).err(), Some(MeshError::TexCoordIndexOutOfRange));
    let bad_norm = FaceIndex { verts: [1, 2, 3], tex_uvs: Some([1, 1, 1]), normals: Some([0, 1, 1]) };
    assert_eq!(resolve_face(&bad_norm, 3, 3, 3).err(), Some(MeshError::NormalIndexOutOfRange));
    let raw = vec![FaceIndex { verts: [1, 2, 3], tex_uvs: None, normals: None }, bad_tex];
    assert_eq!(resolve_faces(&raw, 3, 0, 0).err(), Some(MeshError::TexCoordIndexOutOfRange));
}

#[test]
fn face_without_attributes_resolves_without_them() {
    let obj: GfxObject<FaceIndex<usize>, u32, (u8, u8), char> = GfxObject {
        faces: Vec::new(),
        verts: vec![10, 11, 12, 13],
        tex_uvs: vec![(1, 2), (3, 4)],
        normals: vec!['a', 'b'],
    };
    let bare = FaceIndex { verts: [3, 0, 2], tex_uvs: None, normals: None };
    let f = deindex_face(&bare, &obj);
    assert_eq!(f.verts, [13, 10, 12]);
    assert!(f.tex_uvs.is_none());
    assert!(f.normals.is_none());
    let full = FaceIndex { verts: [0, 1, 2], tex_uvs: Some([1, 0, 1]), normals: Some([0, 0, 1]) };
    let g = deindex_face(&full, &obj);
    assert_eq!(g.tex_uvs, Some([(3, 4), (1, 2), (3, 4)]));
    assert_eq!(g.normals, Some(['a', 'a', 'b']));
}

#[test]
fn interior_weights_are_non_negative_and_sum_to_one() {
    let t = [v(0, 0, 0), v(160, 0, 0), v(0, 160, 0)];
    for px in 0..=160 {
        for py in 0..=(160 - px) {
            let b = barycentric([px, py], &t);
            assert!(b.w0 >= 0 && b.w1 >= 0 && b.w2 >= 0);
            assert_eq!(b.w0 + b.w1 + b.w2, b.den);
        }
    }
    let b = barycentric([16, 32], &t);
    assert_eq!(b, Bary { w0: 25600 - 160 * 16 - 160 * 32, w1: 160 * 16, w2: 160 * 32, den: 25600 });
}

#[test]
fn exterior_points_have_a_negative_weight() {
    let t = [v(0, 0, 0), v(160, 0, 0), v(0, 160, 0)];
    for (px, py) in [(-1, 5), (5, -1), (100, 61), (200, 200), (-50, -50)] {
        let b = barycentric([px, py], &t);
        assert!(b.w0 < 0 || b.w1 < 0 || b.w2 < 0, "{} {}", px, py);
    }
    // clockwise winding gives the same weights
    let cw = [v(0, 0, 0), v(0, 160, 0), v(160, 0, 0)];
    let b = barycentric([16, 32], &cw);
    assert_eq!(b, Bary { w0: 25600 - 160 * 16 - 160 * 32, w1: 160 * 32, w2: 160 * 16, den: 25600 });
}

#[test]
fn degenerate_triangle_is_outside_everywhere() {
    let t = [v(0, 0, 0), v(16, 16, 0), v(32, 32, 0)];
    assert_eq!(barycentric([16, 16], &t), Bary { w0: -1, w1: 0, w2: 0, den: 1 });
    let mut ctx = RenderCtx::new(4, 4);
    draw_tri(&mut ctx, &plain_face(t[0], t[1], t[2]), &empty_texture(), light_down()).unwrap();
    assert!(ctx.zbuf.iter().all(|z| *z == NEG_INF_DEPTH));
}

#[test]
fn floor_division_rounds_down() {
    assert_eq!(floor_div(7, 2), 3);
    assert_eq!(floor_div(-7, 2), -4);
    assert_eq!(floor_div(-8, 2), -4);
    assert_eq!(floor_div(0, 5), 0);
    let b = Bary { w0: 1, w1: 1, w2: 2, den: 4 };
    assert_eq!(interpolate(&b, 4, 8, -4), 1);
    assert_eq!(interpolate(&b, -1, 0, 0), -1);
}

#[test]
fn axis_span_clamps_to_canvas() {
    assert_eq!(axis_span(-100, 40, 20, 10), (0, 3));
    assert_eq!(axis_span(17, 40, 33, 10), (2, 3));
    assert_eq!(axis_span(-100, -50, -1, 10), (0, 0));
    assert_eq!(axis_span(200, 300, 400, 10), (0, 0));
    assert_eq!(axis_span(17, 20, 30, 10), (0, 0));
    assert_eq!(axis_span(0, 1000, 500, 10), (0, 10));
}

#[test]
fn triangle_off_canvas_writes_nothing() {
    let mut ctx = RenderCtx::new(20, 20);
    let s = SUBPIXEL;
    let far = plain_face(v(30 * s, 0, 0), v(40 * s, 0, 0), v(30 * s, 10 * s, 0));
    draw_tri(&mut ctx, &far, &empty_texture(), light_down()).unwrap();
    let below = plain_face(v(0, -20 * s, 0), v(10 * s, -20 * s, 0), v(0, -10 * s, 0));
    draw_tri(&mut ctx, &below, &empty_texture(), light_down()).unwrap();
    assert!(ctx.zbuf.iter().all(|z| *z == NEG_INF_DEPTH));
    assert!(ctx.framebuffer.iter().all(|c| *c == Rgb { r: 0, g: 0, b: 0 }));
}

#[test]
fn unit_triangle_renders_its_footprint_only() {
    // (0,0,0), (1,0,0), (0,1,0) through the default viewport of a 500 by 500 canvas
    let s = SUBPIXEL;
    let face = plain_face(v(0, 0, 0), v(250 * s, 0, 0), v(0, 250 * s, 0));
    let mut ctx = RenderCtx::new(500, 500);
    draw_tri(&mut ctx, &face, &empty_texture(), light_down()).unwrap();
    let white = Rgb { r: 255, g: 255, b: 255 };
    let black = Rgb { r: 0, g: 0, b: 0 };
    let mut filled = 0;
    for x in 0..500u32 {
        for y in 0..500u32 {
            let inside = x + y <= 250;
            if inside {
                filled += 1;
                assert_eq!(ctx.pixel(x, y), white);
                assert!(ctx.depth(x, y) > NEG_INF_DEPTH);
                assert_eq!(ctx.depth(x, y), 0);
            } else {
                assert_eq!(ctx.pixel(x, y), black);
                assert_eq!(ctx.depth(x, y), NEG_INF_DEPTH);
            }
        }
    }
    assert!(filled > 0);
}

#[test]
fn back_facing_triangle_is_culled() {
    let s = SUBPIXEL;
    let face = plain_face(v(0, 0, 0), v(0, 4 * s, 0), v(4 * s, 0, 0));
    let mut ctx = RenderCtx::new(8, 8);
    draw_tri(&mut ctx, &face, &empty_texture(), light_down()).unwrap();
    assert!(ctx.zbuf.iter().all(|z| *z == NEG_INF_DEPTH));
}

#[test]
fn larger_depth_wins_in_either_order() {
    let s = SUBPIXEL;
    let tex = Texture {
        width: 1,
        height: 1,
        texels: vec![Rgba { r: 200, g: 100, b: 50, a: 255 }],
    };
    let uvs = Some([Uv { u: 0, v: UNIT }, Uv { u: 0, v: UNIT }, Uv { u: 0, v: UNIT }]);
    let near: ScreenFace = Face { verts: [v(0, 0, 100), v(8 * s, 0, 100), v(0, 8 * s, 100)], tex_uvs: uvs, normals: None };
    let far: ScreenFace = Face { verts: [v(0, 0, -100), v(8 * s, 0, -100), v(0, 8 * s, -100)], tex_uvs: None, normals: None };
    let mut a = RenderCtx::new(8, 8);
    draw_faces(&mut a, &vec![far, near], &tex, light_down()).unwrap();
    let mut b = RenderCtx::new(8, 8);
    draw_faces(&mut b, &vec![near, far], &tex, light_down()).unwrap();
    assert_eq!(a.depth(1, 1), 100);
    assert_eq!(b.depth(1, 1), 100);
    assert_eq!(a.pixel(1, 1), Rgb { r: 200, g: 100, b: 50 });
    assert_eq!(b.pixel(1, 1), Rgb { r: 200, g: 100, b: 50 });
}

#[test]
fn depth_never_decreases_over_draws() {
    let s = SUBPIXEL;
    let mut ctx = RenderCtx::new(8, 8);
    let mut prev = ctx.zbuf.clone();
    for z in [5, -3, 7, 7, 2] {
        let f = plain_face(v(0, 0, z), v(8 * s, 0, z), v(0, 8 * s, z));
        draw_tri(&mut ctx, &f, &empty_texture(), light_down()).unwrap();
        for i in 0..prev.len() {
            assert!(ctx.zbuf[i] >= prev[i]);
        }
        prev = ctx.zbuf.clone();
    }
    assert_eq!(ctx.depth(0, 0), 7);
}

#[test]
fn brightness_of_normals() {
    assert_eq!(brightness(&v(0, 0, -10), &light_down()), UNIT as i128);
    assert_eq!(brightness(&v(0, 0, 10), &light_down()), -(UNIT as i128));
    assert_eq!(brightness(&v(0, 0, 0), &light_down()), 0);
    assert_eq!(brightness(&v(0, 3, -4), &light_down()), (UNIT as i128) * 4 / 5);
    let t = [v(0, 0, 0), v(16, 0, 0), v(0, 16, 0)];
    assert_eq!(flat_normal(&t), v(0, 0, -16 * 256 * 16 * 256));
    // x and y are brought to the unit of depth before the cross product
    let tilted = [v(0, 0, 0), v(16, 0, 4096), v(0, 16, 0)];
    assert_eq!(flat_normal(&tilted), v(4096 * 4096, 0, -4096 * 4096));
}

#[test]
fn opaque_texels_replace_and_translucent_ones_blend() {
    let half = (UNIT / 2) as i128;
    let opaque = Rgba { r: 200, g: 100, b: 10, a: 255 };
    assert_eq!(composite(&opaque, half, &Rgb { r: 9, g: 9, b: 9 }), Rgb { r: 100, g: 50, b: 5 });
    let clear = Rgba { r: 255, g: 255, b: 255, a: 0 };
    assert_eq!(composite(&clear, half, &Rgb { r: 10, g: 200, b: 0 }), Rgb { r: 137, g: 255, b: 127 });
    let mid = Rgba { r: 100, g: 0, b: 0, a: 51 };
    // 100 * 1/2 + 100 * (1 - 51/255) = 50 + 80
    assert_eq!(composite(&mid, half, &Rgb { r: 100, g: 100, b: 0 }), Rgb { r: 130, g: 80, b: 0 });
}

#[test]
fn texture_is_sampled_nearest_with_v_flipped() {
    let texels = vec![
        Rgba { r: 1, g: 0, b: 0, a: 255 },
        Rgba { r: 2, g: 0, b: 0, a: 255 },
        Rgba { r: 3, g: 0, b: 0, a: 255 },
        Rgba { r: 4, g: 0, b: 0, a: 255 },
    ];
    let tex = Texture { width: 2, height: 2, texels };
    let all = |u: i64, w: i64| Some([Uv { u, v: w }, Uv { u, v: w }, Uv { u, v: w }]);
    let b = Bary { w0: 1, w1: 1, w2: 1, den: 3 };
    // u = 0.2, v = 0.8 lands on column 0, row 0 (the top row)
    assert_eq!(sample_texture(&tex, &all(UNIT / 5, UNIT * 4 / 5), &b).unwrap().r, 1);
    assert_eq!(sample_texture(&tex, &all(UNIT * 3 / 5, UNIT * 4 / 5), &b).unwrap().r, 2);
    assert_eq!(sample_texture(&tex, &all(UNIT / 5, UNIT * 2 / 5), &b).unwrap().r, 3);
    // (0, 0) falls on row `height`, off the texture
    assert_eq!(sample_texture(&tex, &all(0, 0), &b), None);
    assert_eq!(sample_texture(&tex, &None, &b), Some(Rgba { r: 255, g: 255, b: 255, a: 0 }));
}

#[test]
fn vertex_normals_use_negated_weights() {
    let s = SUBPIXEL;
    // normals pointing up (+z) become -z after negation and face the light
    let n = v(0, 0, UNIT);
    let face: ScreenFace = Face {
        verts: [v(0, 0, 0), v(8 * s, 0, 0), v(0, 8 * s, 0)],
        tex_uvs: None,
        normals: Some([n, n, n]),
    };
    let mut ctx = RenderCtx::new(8, 8);
    draw_tri(&mut ctx, &face, &empty_texture(), light_down()).unwrap();
    assert_eq!(ctx.pixel(1, 1), Rgb { r: 255, g: 255, b: 255 });
    let away: ScreenFace = Face { normals: Some([v(0, 0, -UNIT); 3]), ..face };
    let mut dark = RenderCtx::new(8, 8);
    draw_tri(&mut dark, &away, &empty_texture(), light_down()).unwrap();
    // depth is recorded, the pixel is left as it was
    assert_eq!(dark.depth(1, 1), 0);
    assert_eq!(dark.pixel(1, 1), Rgb { r: 0, g: 0, b: 0 });
}

#[test]
fn texel_off_texture_is_reported() {
    let s = SUBPIXEL;
    let tex = Texture { width: 1, height: 1, texels: vec![Rgba { r: 9, g: 9, b: 9, a: 255 }] };
    let uvs = Some([Uv { u: 0, v: 0 }; 3]);
    let face: ScreenFace = Face { verts: [v(0, 0, 0), v(4 * s, 0, 0), v(0, 4 * s, 0)], tex_uvs: uvs, normals: None };
    let mut ctx = RenderCtx::new(8, 8);
    let e = draw_tri(&mut ctx, &face, &tex, light_down()).unwrap_err();
    assert!(e.x + e.y <= 4);
    let mut many = RenderCtx::new(8, 8);
    let plain = plain_face(v(0, 0, 0), v(4 * s, 0, 0), v(0, 4 * s, 0));
    let nearer: ScreenFace = Face { verts: [v(0, 0, 5), v(4 * s, 0, 5), v(0, 4 * s, 5)], ..face };
    assert_eq!(draw_faces(&mut many, &vec![plain, nearer], &tex, light_down()).unwrap_err().0, 1);
    // behind what is already drawn, no pixel passes the depth test and no texel is needed
    let front = plain_face(v(0, 0, 5), v(4 * s, 0, 5), v(0, 4 * s, 5));
    assert!(draw_faces(&mut RenderCtx::new(8, 8), &vec![front, face], &tex, light_down()).is_ok());
    // a face the light does not reach needs no texel
    let mut dark = RenderCtx::new(8, 8);
    let away: ScreenFace = Face { normals: Some([v(0, 0, -UNIT); 3]), ..face };
    assert!(draw_tri(&mut dark, &away, &tex, light_down()).is_ok());
}
