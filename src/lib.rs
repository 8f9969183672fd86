//! A software rasterizer over an indexed triangle mesh.
//!
//! Geometry is held in fixed-point integers: screen positions and depths in
//! sub-pixel units, texture coordinates, normals, light directions and
//! brightness in units of `UNIT`.

mod mesh;
mod obj;
mod raster;
mod render;
mod shade;

pub use mesh::{
    deindex_face, resolve_face, resolve_faces, resolve_index, wrap_indices, Face, FaceIndex, GfxObject,
    MeshError,
};
pub use obj::{
    parse_face_slot, parse_int, parse_obj, parse_record, split_fields, split_pieces, FieldText, MalformedRecord, ObjError,
    ObjText, Record,
};
pub use raster::{barycentric, Bary, Vec3, COORD_MAX, DEGENERATE_AREA, SUBPIXEL};
pub use render::{axis_span, draw_faces, draw_tri, RenderCtx, ScreenFace, TexelOffTexture, MAX_DIM, NEG_INF_DEPTH};
pub use shade::{
    brightness, composite, flat_normal, floor_div, interpolate, sample_texture, texel_coords, Rgb, Rgba,
    Texture, Uv, NORMAL_MAX, UNIT,
};
