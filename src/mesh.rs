use vstd::prelude::*;

verus! {

/// The three pool indices of a triangle, with optional texcoord and normal triples.
#[derive(Clone, Copy, Debug)]
pub struct FaceIndex<T> {
    pub verts: [T; 3],
    pub tex_uvs: Option<[T; 3]>,
    pub normals: Option<[T; 3]>,
}

/// A materialized triangle: concrete positions and optional per-vertex attributes.
#[derive(Clone, Copy, Debug)]
pub struct Face<P, T, N> {
    pub verts: [P; 3],
    pub tex_uvs: Option<[T; 3]>,
    pub normals: Option<[N; 3]>,
}

/// A mesh: its faces and the position, texcoord and normal pools they index.
pub struct GfxObject<F, P, T, N> {
    pub faces: Vec<F>,
    pub verts: Vec<P>,
    pub tex_uvs: Vec<T>,
    pub normals: Vec<N>,
}

/// Why a face could not be resolved against its pools.
#[derive(Clone, Copy, Debug, PartialEq, Eq, Structural)]
pub enum MeshError {
    /// A position index does not resolve within the position pool.
    VertexIndexOutOfRange,
    /// A texcoord index does not resolve within the texcoord pool.
    TexCoordIndexOutOfRange,
    /// A normal index does not resolve within the normal pool.
    NormalIndexOutOfRange,
}

/// Where a description index lands in a pool of `len` elements: positive
/// indices count from 1, negative ones from the end (`-1` is the last element).
pub open spec fn wrapped(raw: int, len: int) -> int {
    if raw < 0 { len + raw } else { raw - 1 }
}

pub open spec fn index_ok(raw: int, len: int) -> bool {
    raw != 0 && 0 <= wrapped(raw, len) < len
}

pub open spec fn triple_ok(raw: [i64; 3], len: int) -> bool {
    index_ok(raw[0] as int, len) && index_ok(raw[1] as int, len) && index_ok(raw[2] as int, len)
}

pub open spec fn wrapped_triple(raw: [i64; 3], len: int) -> [usize; 3] {
    [wrapped(raw[0] as int, len) as usize, wrapped(raw[1] as int, len) as usize, wrapped(raw[2] as int, len) as usize]
}

/// Resolves one description index against a pool of `len` elements.
pub fn resolve_index(raw: i64, len: usize) -> (r: Option<usize>)
    ensures
        r.is_some() == index_ok(raw as int, len as int),
        r.is_some() ==> r.unwrap() == wrapped(raw as int, len as int),
{
    if raw > 0 {
        let k = (raw - 1) as u64;
        if k < len as u64 { Some(k as usize) } else { None }
    } else if raw < 0 {
        let back = (0 - raw as i128) as u128;
        if back <= len as u128 { Some((len as u128 - back) as usize) } else { None }
    } else {
        None
    }
}

/// Resolves an index triple against a pool of `len` elements.
pub fn wrap_indices(raw: &[i64; 3], len: usize) -> (r: Option<[usize; 3]>)
    ensures
        r.is_some() == triple_ok(*raw, len as int),
        r.is_some() ==> r.unwrap() == wrapped_triple(*raw, len as int),
{
    let a = resolve_index(raw[0], len);
    let b = resolve_index(raw[1], len);
    let c = resolve_index(raw[2], len);
    match (a, b, c) {
        (Some(a), Some(b), Some(c)) => Some([a, b, c]),
        _ => None,
    }
}


/// The position triple, then the texcoord triple, then the normal triple:
/// the first one that does not resolve decides the error.
pub open spec fn face_error(raw: FaceIndex<i64>, nv: int, nt: int, nn: int) -> Option<MeshError> {
    if !triple_ok(raw.verts, nv) {
        Some(MeshError::VertexIndexOutOfRange)
    } else if raw.tex_uvs is Some && !triple_ok(raw.tex_uvs.unwrap(), nt) {
        Some(MeshError::TexCoordIndexOutOfRange)
    } else if raw.normals is Some && !triple_ok(raw.normals.unwrap(), nn) {
        Some(MeshError::NormalIndexOutOfRange)
    } else {
        None
    }
}

pub open spec fn wrapped_opt(raw: Option<[i64; 3]>, len: int) -> Option<[usize; 3]> {
    match raw {
        Some(t) => Some(wrapped_triple(t, len)),
        None => None,
    }
}

/// The pool indices of a face whose indices all resolve.
pub open spec fn resolved(raw: FaceIndex<i64>, nv: int, nt: int, nn: int) -> FaceIndex<usize> {
    FaceIndex {
        verts: wrapped_triple(raw.verts, nv),
        tex_uvs: wrapped_opt(raw.tex_uvs, nt),
        normals: wrapped_opt(raw.normals, nn),
    }
}

fn wrap_optional(raw: &Option<[i64; 3]>, len: usize) -> (r: Option<Option<[usize; 3]>>)
    ensures
        r.is_some() == (raw.is_some() ==> triple_ok(raw.unwrap(), len as int)),
        r.is_some() ==> r.unwrap() == wrapped_opt(*raw, len as int),
{
    match raw {
        Some(t) => match wrap_indices(t, len) {
            Some(w) => Some(Some(w)),
            None => None,
        },
        None => Some(None),
    }
}

/// Resolves the description indices of one face against the final pool sizes.
pub fn resolve_face(raw: &FaceIndex<i64>, nv: usize, nt: usize, nn: usize) -> (r: Result<FaceIndex<usize>, MeshError>)
    ensures
        match r {
            Ok(f) => face_error(*raw, nv as int, nt as int, nn as int) is None
                && f == resolved(*raw, nv as int, nt as int, nn as int),
            Err(e) => face_error(*raw, nv as int, nt as int, nn as int) == Some(e),
        },
{
    let verts = match wrap_indices(&raw.verts, nv) {
        Some(v) => v,
        None => return Err(MeshError::VertexIndexOutOfRange),
    };
    let tex_uvs = match wrap_optional(&raw.tex_uvs, nt) {
        Some(t) => t,
        None => return Err(MeshError::TexCoordIndexOutOfRange),
    };
    let normals = match wrap_optional(&raw.normals, nn) {
        Some(n) => n,
        None => return Err(MeshError::NormalIndexOutOfRange),
    };
    Ok(FaceIndex { verts, tex_uvs, normals })
}

/// Resolves every face against the pools' final sizes, whatever the order in
/// which faces and pool elements were declared. Fails with the error of the
/// first face that does not resolve.
pub fn resolve_faces(raw: &Vec<FaceIndex<i64>>, nv: usize, nt: usize, nn: usize) -> (r: Result<Vec<FaceIndex<usize>>, MeshError>)
    ensures
        match r {
            Ok(fs) => fs@.len() == raw@.len() && forall|i: int| 0 <= i < raw@.len() ==>
                face_error(#[trigger] raw@[i], nv as int, nt as int, nn as int) is None
                && fs@[i] == resolved(raw@[i], nv as int, nt as int, nn as int),
            Err(e) => exists|i: int| 0 <= i < raw@.len()
                && face_error(#[trigger] raw@[i], nv as int, nt as int, nn as int) == Some(e)
                && forall|j: int| 0 <= j < i ==> face_error(#[trigger] raw@[j], nv as int, nt as int, nn as int) is None,
        },
{
    let mut out: Vec<FaceIndex<usize>> = Vec::new();
    let mut i: usize = 0;
    while i < raw.len()
        invariant
            i <= raw@.len(),
            out@.len() == i,
            forall|k: int| 0 <= k < i ==>
                face_error(#[trigger] raw@[k], nv as int, nt as int, nn as int) is None
                && out@[k] == resolved(raw@[k], nv as int, nt as int, nn as int),
        decreases raw@.len() - i,
    {
        match resolve_face(&raw[i], nv, nt, nn) {
            Ok(f) => out.push(f),
            Err(e) => {
                assert(face_error(raw@[i as int], nv as int, nt as int, nn as int) == Some(e));
                return Err(e);
            },
        }
        i = i + 1;
    }
    Ok(out)
}

pub open spec fn in_pool(t: Option<[usize; 3]>, len: int) -> bool {
    t is Some ==> (t.unwrap()[0] < len && t.unwrap()[1] < len && t.unwrap()[2] < len)
}

/// A face whose pool indices all lie within the object's pools.
pub open spec fn face_in_pools<F, P, T, N>(face: FaceIndex<usize>, obj: GfxObject<F, P, T, N>) -> bool {
    &&& face.verts[0] < obj.verts@.len() && face.verts[1] < obj.verts@.len() && face.verts[2] < obj.verts@.len()
    &&& in_pool(face.tex_uvs, obj.tex_uvs@.len() as int)
    &&& in_pool(face.normals, obj.normals@.len() as int)
}

pub open spec fn pick<A>(pool: Seq<A>, t: [usize; 3]) -> [A; 3] {
    [pool[t[0] as int], pool[t[1] as int], pool[t[2] as int]]
}

pub open spec fn pick_opt<A>(pool: Seq<A>, t: Option<[usize; 3]>) -> Option<[A; 3]> {
    match t {
        Some(t) => Some(pick(pool, t)),
        None => None,
    }
}

fn pick_triple<A: Copy>(pool: &Vec<A>, t: &[usize; 3]) -> (r: [A; 3])
    requires
        t[0] < pool@.len(),
        t[1] < pool@.len(),
        t[2] < pool@.len(),
    ensures
        r == pick(pool@, *t),
{
    [pool[t[0]], pool[t[1]], pool[t[2]]]
}

fn pick_optional<A: Copy>(pool: &Vec<A>, t: &Option<[usize; 3]>) -> (r: Option<[A; 3]>)
    requires
        in_pool(*t, pool@.len() as int),
    ensures
        r == pick_opt(pool@, *t),
{
    match t {
        Some(t) => Some(pick_triple(pool, t)),
        None => None,
    }
}

/// Materializes a face by looking its indices up in the object's pools. A
/// face without a texcoord (or normal) triple gives a triangle without
/// texcoords (or normals).
pub fn deindex_face<F, P: Copy, T: Copy, N: Copy>(face: &FaceIndex<usize>, gfxobj: &GfxObject<F, P, T, N>) -> (r: Face<P, T, N>)
    requires
        face_in_pools(*face, *gfxobj),
    ensures
        r.verts == pick(gfxobj.verts@, face.verts),
        r.tex_uvs == pick_opt(gfxobj.tex_uvs@, face.tex_uvs),
        r.normals == pick_opt(gfxobj.normals@, face.normals),
        r.tex_uvs is None <==> face.tex_uvs is None,
        r.normals is None <==> face.normals is None,
{
    let verts = pick_triple(&gfxobj.verts, &face.verts);
    let tex_uvs = pick_optional(&gfxobj.tex_uvs, &face.tex_uvs);
    let normals = pick_optional(&gfxobj.normals, &face.normals);
    Face { verts, tex_uvs, normals }
}

/// A negative description index names the same pool element as the positive
/// index that counts the same element from the front of the final pool.
pub proof fn lemma_negative_index_matches_positive(raw: i64, len: usize)
    requires
        raw < 0,
        index_ok(raw as int, len as int),
    ensures
        index_ok(len + raw + 1, len as int),
        wrapped(raw as int, len as int) == wrapped(len + raw + 1, len as int),
{
}

/// Every face of a mesh is resolved against the pools' final sizes: a negative
/// index in any face, early or late, lands where the positive index counted
/// from the front of the final pool lands.
pub proof fn lemma_faces_resolve_against_final_pools(raw: Seq<FaceIndex<i64>>, fs: Seq<FaceIndex<usize>>, nv: usize, nt: usize, nn: usize, i: int, k: int)
    requires
        fs.len() == raw.len(),
        forall|j: int| 0 <= j < raw.len() ==> fs[j] == resolved(#[trigger] raw[j], nv as int, nt as int, nn as int),
        0 <= i < raw.len(),
        0 <= k < 3,
        raw[i].verts[k] < 0,
        index_ok(raw[i].verts[k] as int, nv as int),
    ensures
        fs[i].verts[k] == wrapped(nv + raw[i].verts[k] + 1, nv as int),
        fs[i].verts[k] == nv + raw[i].verts[k],
{
    let f = raw[i];
    assert(fs[i] == resolved(f, nv as int, nt as int, nn as int));
    if k == 0 {
        assert(fs[i].verts[0] == wrapped(f.verts[0] as int, nv as int));
    } else if k == 1 {
        assert(fs[i].verts[1] == wrapped(f.verts[1] as int, nv as int));
    } else {
        assert(fs[i].verts[2] == wrapped(f.verts[2] as int, nv as int));
    }
}


/// A face given without a texcoord (or normal) triple resolves to a face
/// without one, and materializes as a triangle without texcoords (or
/// normals), never as default-valued ones.
pub proof fn lemma_absent_attributes_stay_absent<F, P, T, N>(raw: FaceIndex<i64>, obj: GfxObject<F, P, T, N>)
    ensures
        raw.tex_uvs is None ==> resolved(raw, obj.verts@.len() as int, obj.tex_uvs@.len() as int, obj.normals@.len() as int).tex_uvs is None
            && pick_opt(obj.tex_uvs@, resolved(raw, obj.verts@.len() as int, obj.tex_uvs@.len() as int, obj.normals@.len() as int).tex_uvs) is None,
        raw.normals is None ==> resolved(raw, obj.verts@.len() as int, obj.tex_uvs@.len() as int, obj.normals@.len() as int).normals is None
            && pick_opt(obj.normals@, resolved(raw, obj.verts@.len() as int, obj.tex_uvs@.len() as int, obj.normals@.len() as int).normals) is None,
{
}

} // verus!
