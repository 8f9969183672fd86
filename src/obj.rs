use vstd::prelude::*;
use crate::mesh::{face_error, index_ok, resolve_faces, resolved, wrapped, FaceIndex, GfxObject, MeshError};

verus! {

/// ASCII whitespace: space, tab, line feed, form feed, carriage return.
pub open spec fn is_space(b: u8) -> bool {
    b == 32 || b == 9 || b == 10 || b == 12 || b == 13
}

/// The fields of `s[i..]`, given that the field under way (if `start < i`)
/// began at `start`: maximal runs of non-whitespace bytes, in order.
pub open spec fn fields_from(s: Seq<u8>, i: int, start: int, acc: Seq<Seq<u8>>) -> Seq<Seq<u8>>
    decreases s.len() - i,
{
    if i >= s.len() {
        if start < i { acc.push(s.subrange(start, i)) } else { acc }
    } else if is_space(s[i]) {
        fields_from(s, i + 1, i + 1, if start < i { acc.push(s.subrange(start, i)) } else { acc })
    } else {
        fields_from(s, i + 1, start, acc)
    }
}

/// The whitespace-separated fields of a line.
pub open spec fn fields(s: Seq<u8>) -> Seq<Seq<u8>> {
    fields_from(s, 0, 0, Seq::empty())
}

/// The pieces of `s[i..]` between `sep` bytes, given that the piece under way
/// began at `start`; empty pieces are kept.
pub open spec fn pieces_from(s: Seq<u8>, sep: u8, i: int, start: int, acc: Seq<Seq<u8>>) -> Seq<Seq<u8>>
    decreases s.len() - i,
{
    if i >= s.len() {
        acc.push(s.subrange(start, s.len() as int))
    } else if s[i] == sep {
        pieces_from(s, sep, i + 1, i + 1, acc.push(s.subrange(start, i)))
    } else {
        pieces_from(s, sep, i + 1, start, acc)
    }
}

/// `s` cut at every `sep` byte.
pub open spec fn pieces(s: Seq<u8>, sep: u8) -> Seq<Seq<u8>> {
    pieces_from(s, sep, 0, 0, Seq::empty())
}

pub open spec fn views(v: Seq<Vec<u8>>) -> Seq<Seq<u8>> {
    v.map_values(|x: Vec<u8>| x@)
}

fn copy_range(s: &[u8], start: usize, end: usize) -> (r: Vec<u8>)
    requires
        start <= end <= s@.len(),
    ensures
        r@ == s@.subrange(start as int, end as int),
{
    let mut r: Vec<u8> = Vec::new();
    let mut k = start;
    while k < end
        invariant
            start <= k <= end <= s@.len(),
            r@ == s@.subrange(start as int, k as int),
        decreases end - k,
    {
        r.push(s[k]);
        proof {
            assert(r@ =~= s@.subrange(start as int, k + 1));
        }
        k = k + 1;
    }
    r
}

proof fn lemma_views_push(v: Seq<Vec<u8>>, x: Vec<u8>)
    ensures
        views(v.push(x)) == views(v).push(x@),
{
    assert(views(v.push(x)) =~= views(v).push(x@));
}

/// Splits a line into its whitespace-separated fields.
pub fn split_fields(s: &[u8]) -> (r: Vec<Vec<u8>>)
    ensures
        views(r@) == fields(s@),
{
    let mut r: Vec<Vec<u8>> = Vec::new();
    let mut start: usize = 0;
    let mut i: usize = 0;
    proof {
        assert(views(r@) =~= Seq::<Seq<u8>>::empty());
    }
    while i < s.len()
        invariant
            start <= i <= s@.len(),
            fields(s@) == fields_from(s@, i as int, start as int, views(r@)),
        decreases s@.len() - i,
    {
        if is_space_byte(s[i]) {
            if start < i {
                let f = copy_range(s, start, i);
                proof { lemma_views_push(r@, f); }
                r.push(f);
            }
            start = i + 1;
        }
        i = i + 1;
    }
    if start < i {
        let f = copy_range(s, start, i);
        proof { lemma_views_push(r@, f); }
        r.push(f);
    }
    r
}

fn is_space_byte(b: u8) -> (r: bool)
    ensures
        r == is_space(b),
{
    b == 32 || b == 9 || b == 10 || b == 12 || b == 13
}

/// Cuts `s` at every `sep` byte, keeping empty pieces.
pub fn split_pieces(s: &[u8], sep: u8) -> (r: Vec<Vec<u8>>)
    ensures
        views(r@) == pieces(s@, sep),
{
    let mut r: Vec<Vec<u8>> = Vec::new();
    let mut start: usize = 0;
    let mut i: usize = 0;
    proof {
        assert(views(r@) =~= Seq::<Seq<u8>>::empty());
    }
    while i < s.len()
        invariant
            start <= i <= s@.len(),
            pieces(s@, sep) == pieces_from(s@, sep, i as int, start as int, views(r@)),
        decreases s@.len() - i,
    {
        if s[i] == sep {
            let f = copy_range(s, start, i);
            proof { lemma_views_push(r@, f); }
            r.push(f);
            start = i + 1;
        }
        i = i + 1;
    }
    let f = copy_range(s, start, s.len());
    proof { lemma_views_push(r@, f); }
    r.push(f);
    r
}


pub open spec fn is_digit(b: u8) -> bool {
    48 <= b <= 57
}

pub open spec fn all_digits(s: Seq<u8>) -> bool {
    forall|k: int| 0 <= k < s.len() ==> is_digit(#[trigger] s[k])
}

/// The number a run of decimal digits spells.
pub open spec fn digits_value(s: Seq<u8>) -> int
    decreases s.len(),
{
    if s.len() == 0 { 0 } else { digits_value(s.drop_last()) * 10 + (s.last() - 48) }
}

/// A decimal integer with an optional `-` or `+` sign, if it fits in `i64`.
pub open spec fn int_value(s: Seq<u8>) -> Option<int> {
    let signed = s.len() > 0 && (s[0] == 45 || s[0] == 43);
    let body = if signed { s.subrange(1, s.len() as int) } else { s };
    let v = if signed && s[0] == 45 { -digits_value(body) } else { digits_value(body) };
    if body.len() == 0 || !all_digits(body) || v < i64::MIN || v > i64::MAX {
        None
    } else {
        Some(v)
    }
}

proof fn lemma_digits_nonneg(s: Seq<u8>)
    requires
        all_digits(s),
    ensures
        digits_value(s) >= 0,
    decreases s.len(),
{
    if s.len() > 0 {
        lemma_digits_nonneg(s.drop_last());
    }
}

/// Appending digits never makes the value smaller.
proof fn lemma_digits_prefix(s: Seq<u8>, k: int)
    requires
        all_digits(s),
        0 <= k <= s.len(),
    ensures
        digits_value(s.subrange(0, k)) <= digits_value(s),
    decreases s.len() - k,
{
    if k < s.len() {
        lemma_digits_prefix(s, k + 1);
        let p = s.subrange(0, k + 1);
        assert(p.drop_last() =~= s.subrange(0, k));
        lemma_digits_nonneg(s.subrange(0, k));
    } else {
        assert(s.subrange(0, k) =~= s);
    }
}

/// Parses a decimal integer with an optional sign.
pub fn parse_int(s: &[u8]) -> (r: Option<i64>)
    ensures
        r.is_some() == int_value(s@).is_some(),
        r.is_some() ==> r.unwrap() == int_value(s@).unwrap(),
{
    let n = s.len();
    let signed = n > 0 && (s[0] == 45 || s[0] == 43);
    let neg = signed && s[0] == 45;
    let first: usize = if signed { 1 } else { 0 };
    let ghost body = if signed { s@.subrange(1, n as int) } else { s@ };
    if first == n {
        return None;
    }
    let limit: u64 = if neg { 0x8000000000000000 } else { 0x7fffffffffffffff };
    let mut acc: u64 = 0;
    let mut i = first;
    while i < n
        invariant
            first <= i <= n == s@.len(),
            first < n,
            body == s@.subrange(first as int, n as int),
            all_digits(s@.subrange(first as int, i as int)),
            acc == digits_value(s@.subrange(first as int, i as int)),
            acc <= limit,
            limit >= 0x7fffffffffffffff,
            neg ==> limit == 0x8000000000000000,
            !neg ==> limit == 0x7fffffffffffffff,
            neg == (signed && s@[0] == 45),
            signed == (s@.len() > 0 && (s@[0] == 45 || s@[0] == 43)),
            first == (if signed { 1usize } else { 0usize }),
            body == (if signed { s@.subrange(1, n as int) } else { s@ }),
        decreases n - i,
    {
        let b = s[i];
        if b < 48 || b > 57 {
            proof {
                assert(body[i - first] == s@[i as int]);
                assert(!is_digit(body[i - first]));
                assert(!all_digits(body));
                assert(body == (if s@.len() > 0 && (s@[0] == 45 || s@[0] == 43) { s@.subrange(1, s@.len() as int) } else { s@ }));
                assert(int_value(s@) is None);
            }
            return None;
        }
        let d = (b - 48) as u64;
        proof {
            assert(s@.subrange(first as int, i + 1).drop_last() =~= s@.subrange(first as int, i as int));
        }
        if acc > (limit - d) / 10 {
            proof {
                assert(acc * 10 + d > limit) by (nonlinear_arith)
                    requires acc > (limit - d) / 10, d <= 9, limit >= 9;
                assert(body == (if s@.len() > 0 && (s@[0] == 45 || s@[0] == 43) { s@.subrange(1, s@.len() as int) } else { s@ }));
                if all_digits(body) {
                    lemma_digits_prefix(body, i + 1 - first);
                    assert(body.subrange(0, i + 1 - first) =~= s@.subrange(first as int, i + 1));
                    assert(digits_value(s@.subrange(first as int, i + 1)) == acc * 10 + d);
                    assert(digits_value(body) > limit);
                }
                assert(int_value(s@) is None);
            }
            return None;
        }
        proof {
            assert(acc * 10 + d <= limit) by (nonlinear_arith)
                requires acc <= (limit - d) / 10, d <= 9, limit >= 9;
            assert(all_digits(s@.subrange(first as int, i + 1)));
        }
        acc = acc * 10 + d;
        i = i + 1;
    }
    proof {
        assert(s@.subrange(first as int, n as int) == body);
    }
    if neg {
        if acc == 0x8000000000000000 {
            Some(i64::MIN)
        } else {
            Some(0 - acc as i64)
        }
    } else {
        Some(acc as i64)
    }
}


/// A face slot `position/texcoord/normal`: three decimal indices.
pub open spec fn slot_spec(s: Seq<u8>) -> Option<(int, int, int)> {
    let p = pieces(s, 47);
    if p.len() != 3 || int_value(p[0]) is None || int_value(p[1]) is None || int_value(p[2]) is None {
        None
    } else {
        Some((int_value(p[0]).unwrap(), int_value(p[1]).unwrap(), int_value(p[2]).unwrap()))
    }
}

/// Parses one face slot into its position, texcoord and normal indices.
pub fn parse_face_slot(s: &[u8]) -> (r: Option<(i64, i64, i64)>)
    ensures
        r is None <==> slot_spec(s@) is None,
        r is Some ==> slot_spec(s@) == Some((r.unwrap().0 as int, r.unwrap().1 as int, r.unwrap().2 as int)),
{
    let p = split_pieces(s, 47);
    if p.len() != 3 {
        return None;
    }
    let pos = match parse_int(p[0].as_slice()) {
        Some(v) => v,
        None => return None,
    };
    let tex = match parse_int(p[1].as_slice()) {
        Some(v) => v,
        None => return None,
    };
    let norm = match parse_int(p[2].as_slice()) {
        Some(v) => v,
        None => return None,
    };
    Some((pos, tex, norm))
}

/// The raw face of three well-formed slots.
pub open spec fn face_spec(a: Seq<u8>, b: Seq<u8>, c: Seq<u8>) -> Option<FaceIndex<i64>> {
    let (sa, sb, sc) = (slot_spec(a), slot_spec(b), slot_spec(c));
    if sa is None || sb is None || sc is None {
        None
    } else {
        let (x, y, z) = (sa.unwrap(), sb.unwrap(), sc.unwrap());
        Some(FaceIndex {
            verts: [x.0 as i64, y.0 as i64, z.0 as i64],
            tex_uvs: Some([x.1 as i64, y.1 as i64, z.1 as i64]),
            normals: Some([x.2 as i64, y.2 as i64, z.2 as i64]),
        })
    }
}

/// What a line of the mesh description holds.
pub enum Record {
    /// `v x y z`: the three coordinate fields.
    Position(Vec<Vec<u8>>),
    /// `vt u v`: the two coordinate fields.
    TexCoord(Vec<Vec<u8>>),
    /// `vn x y z`: the three component fields.
    Normal(Vec<Vec<u8>>),
    /// `f a b c`: the description indices of a triangle.
    Face(FaceIndex<i64>),
    /// A blank line or one of another kind.
    Ignored,
}

/// A line that could not be read as the record its first field announces.
#[derive(Clone, Copy, Debug, PartialEq, Eq, Structural)]
pub struct MalformedRecord;

/// The fields a record carries, as byte strings.
pub enum RecordView {
    Position(Seq<Seq<u8>>),
    TexCoord(Seq<Seq<u8>>),
    Normal(Seq<Seq<u8>>),
    Face(FaceIndex<i64>),
    Ignored,
}

pub open spec fn record_view(r: Record) -> RecordView {
    match r {
        Record::Position(f) => RecordView::Position(views(f@)),
        Record::TexCoord(f) => RecordView::TexCoord(views(f@)),
        Record::Normal(f) => RecordView::Normal(views(f@)),
        Record::Face(f) => RecordView::Face(f),
        Record::Ignored => RecordView::Ignored,
    }
}

/// What a line reads as, or `None` for a malformed record.
pub open spec fn record_spec(line: Seq<u8>) -> Option<RecordView> {
    let f = fields(line);
    if f.len() == 0 {
        Some(RecordView::Ignored)
    } else if f[0] == seq![118u8] {
        if f.len() == 4 { Some(RecordView::Position(f.subrange(1, 4))) } else { None }
    } else if f[0] == seq![118u8, 116u8] {
        if f.len() == 3 { Some(RecordView::TexCoord(f.subrange(1, 3))) } else { None }
    } else if f[0] == seq![118u8, 110u8] {
        if f.len() == 4 { Some(RecordView::Normal(f.subrange(1, 4))) } else { None }
    } else if f[0] == seq![102u8] {
        if f.len() == 4 {
            match face_spec(f[1], f[2], f[3]) {
                Some(face) => Some(RecordView::Face(face)),
                None => None,
            }
        } else {
            None
        }
    } else {
        Some(RecordView::Ignored)
    }
}

fn is_word1(f: &Vec<u8>, a: u8) -> (r: bool)
    ensures
        r == (f@ == seq![a]),
{
    if f.len() == 1 && f[0] == a {
        assert(f@ =~= seq![a]);
        true
    } else {
        false
    }
}

fn is_word2(f: &Vec<u8>, a: u8, b: u8) -> (r: bool)
    ensures
        r == (f@ == seq![a, b]),
{
    if f.len() == 2 && f[0] == a && f[1] == b {
        assert(f@ =~= seq![a, b]);
        true
    } else {
        false
    }
}

fn take_fields(f: Vec<Vec<u8>>, n: usize) -> (r: Vec<Vec<u8>>)
    requires
        1 <= n + 1 <= f@.len(),
    ensures
        views(r@) == views(f@).subrange(1, n + 1),
{
    let ghost before = f@;
    let mut f = f;
    let _ = f.remove(0);
    f.truncate(n);
    assert(views(f@) =~= views(before).subrange(1, n + 1));
    f
}

fn parse_face_fields(f: &Vec<Vec<u8>>) -> (r: Option<FaceIndex<i64>>)
    requires
        f@.len() == 4,
    ensures
        r == face_spec(f@[1]@, f@[2]@, f@[3]@),
{
    let a = match parse_face_slot(f[1].as_slice()) {
        Some(x) => x,
        None => return None,
    };
    let b = match parse_face_slot(f[2].as_slice()) {
        Some(x) => x,
        None => return None,
    };
    let c = match parse_face_slot(f[3].as_slice()) {
        Some(x) => x,
        None => return None,
    };
    Some(FaceIndex { verts: [a.0, b.0, c.0], tex_uvs: Some([a.1, b.1, c.1]), normals: Some([a.2, b.2, c.2]) })
}

/// Reads one line of the mesh description.
pub fn parse_record(line: &[u8]) -> (r: Result<Record, MalformedRecord>)
    ensures
        match r {
            Ok(rec) => record_spec(line@) == Some(record_view(rec)),
            Err(_) => record_spec(line@) is None,
        },
{
    let f = split_fields(line);
    proof {
        assert(views(f@).len() == f@.len());
    }
    if f.len() == 0 {
        return Ok(Record::Ignored);
    }
    proof {
        assert(views(f@)[0] == f@[0]@);
    }
    if is_word1(&f[0], 118) {
        if f.len() == 4 { Ok(Record::Position(take_fields(f, 3))) } else { Err(MalformedRecord) }
    } else if is_word2(&f[0], 118, 116) {
        if f.len() == 3 { Ok(Record::TexCoord(take_fields(f, 2))) } else { Err(MalformedRecord) }
    } else if is_word2(&f[0], 118, 110) {
        if f.len() == 4 { Ok(Record::Normal(take_fields(f, 3))) } else { Err(MalformedRecord) }
    } else if is_word1(&f[0], 102) {
        if f.len() == 4 {
            proof {
                assert(views(f@)[1] == f@[1]@);
                assert(views(f@)[2] == f@[2]@);
                assert(views(f@)[3] == f@[3]@);
            }
            match parse_face_fields(&f) {
                Some(face) => Ok(Record::Face(face)),
                None => Err(MalformedRecord),
            }
        } else {
            Err(MalformedRecord)
        }
    } else {
        Ok(Record::Ignored)
    }
}


/// The coordinate fields of one pool element, with the line they came from.
pub struct FieldText {
    pub line: usize,
    pub fields: Vec<Vec<u8>>,
}

pub open spec fn text_view(t: FieldText) -> (int, Seq<Seq<u8>>) {
    (t.line as int, views(t.fields@))
}

pub open spec fn text_views(v: Seq<FieldText>) -> Seq<(int, Seq<Seq<u8>>)> {
    v.map_values(|t: FieldText| text_view(t))
}

/// A mesh description read as text: pools of coordinate fields and faces
/// whose indices point into them.
pub type ObjText = GfxObject<FaceIndex<usize>, FieldText, FieldText, FieldText>;

/// Why a mesh description could not be read.
#[derive(Clone, Copy, Debug, PartialEq, Eq, Structural)]
pub enum ObjError {
    /// The record on this (0-based) line is malformed.
    Malformed(usize),
    /// A face index does not resolve within its pool.
    IndexOutOfRange(MeshError),
}

/// The records of a description's first lines, gathered by kind in order.
pub struct Pools {
    pub verts: Seq<(int, Seq<Seq<u8>>)>,
    pub tex_uvs: Seq<(int, Seq<Seq<u8>>)>,
    pub normals: Seq<(int, Seq<Seq<u8>>)>,
    pub faces: Seq<FaceIndex<i64>>,
}

pub open spec fn add_record(p: Pools, line: int, r: RecordView) -> Pools {
    match r {
        RecordView::Position(f) => Pools { verts: p.verts.push((line, f)), ..p },
        RecordView::TexCoord(f) => Pools { tex_uvs: p.tex_uvs.push((line, f)), ..p },
        RecordView::Normal(f) => Pools { normals: p.normals.push((line, f)), ..p },
        RecordView::Face(f) => Pools { faces: p.faces.push(f), ..p },
        RecordView::Ignored => p,
    }
}

/// The pools gathered from the first `n` lines, or `None` if one of them is malformed.
pub open spec fn read_lines(lines: Seq<Seq<u8>>, n: int) -> Option<Pools>
    decreases n,
{
    if n <= 0 {
        Some(Pools { verts: Seq::empty(), tex_uvs: Seq::empty(), normals: Seq::empty(), faces: Seq::empty() })
    } else {
        match read_lines(lines, n - 1) {
            None => None,
            Some(p) => match record_spec(lines[n - 1]) {
                None => None,
                Some(r) => Some(add_record(p, n - 1, r)),
            },
        }
    }
}

fn push_text(pool: &mut Vec<FieldText>, line: usize, fields: Vec<Vec<u8>>)
    ensures
        text_views(final(pool)@) == text_views(old(pool)@).push((line as int, views(fields@))),
{
    let t = FieldText { line, fields };
    pool.push(t);
    assert(text_views(final(pool)@) =~= text_views(old(pool)@).push((line as int, views(fields@))));
}

/// Reads a mesh description line by line, then resolves every face against
/// the final sizes of the pools. Coordinates are kept as their text fields.
pub fn parse_obj(lines: &Vec<Vec<u8>>) -> (r: Result<ObjText, ObjError>)
    ensures
        match r {
            Err(ObjError::Malformed(i)) => i < lines@.len() && read_lines(views(lines@), i as int) is Some
                && record_spec(lines@[i as int]@) is None,
            Err(ObjError::IndexOutOfRange(e)) => read_lines(views(lines@), lines@.len() as int) matches Some(p)
                && exists|k: int| 0 <= k < p.faces.len()
                    && face_error(#[trigger] p.faces[k], p.verts.len() as int, p.tex_uvs.len() as int, p.normals.len() as int) == Some(e)
                    && forall|j: int| 0 <= j < k ==>
                        face_error(#[trigger] p.faces[j], p.verts.len() as int, p.tex_uvs.len() as int, p.normals.len() as int) is None,
            Ok(obj) => read_lines(views(lines@), lines@.len() as int) matches Some(p)
                && text_views(obj.verts@) == p.verts
                && text_views(obj.tex_uvs@) == p.tex_uvs
                && text_views(obj.normals@) == p.normals
                && obj.faces@.len() == p.faces.len()
                && forall|k: int| 0 <= k < p.faces.len() ==>
                    face_error(#[trigger] p.faces[k], p.verts.len() as int, p.tex_uvs.len() as int, p.normals.len() as int) is None
                    && obj.faces@[k] == resolved(p.faces[k], p.verts.len() as int, p.tex_uvs.len() as int, p.normals.len() as int),
        },
{
    let mut verts: Vec<FieldText> = Vec::new();
    let mut tex_uvs: Vec<FieldText> = Vec::new();
    let mut normals: Vec<FieldText> = Vec::new();
    let mut faces_raw: Vec<FaceIndex<i64>> = Vec::new();
    let mut i: usize = 0;
    proof {
        assert(text_views(verts@) =~= Seq::<(int, Seq<Seq<u8>>)>::empty());
        assert(text_views(tex_uvs@) =~= Seq::<(int, Seq<Seq<u8>>)>::empty());
        assert(text_views(normals@) =~= Seq::<(int, Seq<Seq<u8>>)>::empty());
        assert(faces_raw@ =~= Seq::<FaceIndex<i64>>::empty());
    }
    while i < lines.len()
        invariant
            i <= lines@.len(),
            read_lines(views(lines@), i as int) matches Some(p)
                && text_views(verts@) == p.verts
                && text_views(tex_uvs@) == p.tex_uvs
                && text_views(normals@) == p.normals
                && faces_raw@ == p.faces,
        decreases lines@.len() - i,
    {
        let ghost before = read_lines(views(lines@), i as int).unwrap();
        proof {
            assert(views(lines@)[i as int] == lines@[i as int]@);
        }
        let rec = match parse_record(lines[i].as_slice()) {
            Ok(rec) => rec,
            Err(_) => return Err(ObjError::Malformed(i)),
        };
        match rec {
            Record::Position(f) => push_text(&mut verts, i, f),
            Record::TexCoord(f) => push_text(&mut tex_uvs, i, f),
            Record::Normal(f) => push_text(&mut normals, i, f),
            Record::Face(f) => faces_raw.push(f),
            Record::Ignored => {},
        }
        i = i + 1;
    }
    let faces = match resolve_faces(&faces_raw, verts.len(), tex_uvs.len(), normals.len()) {
        Ok(faces) => faces,
        Err(e) => return Err(ObjError::IndexOutOfRange(e)),
    };
    Ok(GfxObject { faces, verts, tex_uvs, normals })
}

/// Reading further lines only appends to the pools gathered so far.
proof fn lemma_read_prefix(lines: Seq<Seq<u8>>, m: int, n: int)
    requires
        0 <= m <= n,
        read_lines(lines, n) is Some,
    ensures
        read_lines(lines, m) is Some,
        read_lines(lines, m).unwrap().verts.len() <= read_lines(lines, n).unwrap().verts.len(),
        read_lines(lines, m).unwrap().faces.len() <= read_lines(lines, n).unwrap().faces.len(),
        forall|k: int| 0 <= k < read_lines(lines, m).unwrap().faces.len() ==>
            #[trigger] read_lines(lines, n).unwrap().faces[k] == read_lines(lines, m).unwrap().faces[k],
    decreases n - m,
{
    if m < n {
        assert(read_lines(lines, n - 1) is Some);
        lemma_read_prefix(lines, m, n - 1);
        let q = read_lines(lines, n - 1).unwrap();
        let p = read_lines(lines, n).unwrap();
        assert(p == add_record(q, n - 1, record_spec(lines[n - 1]).unwrap()));
        assert forall|k: int| 0 <= k < q.faces.len() implies #[trigger] p.faces[k] == q.faces[k] by {}
    }
}

/// A face declared among the first `m` lines, while the position pool may
/// still have been smaller, resolves a negative position index against the
/// number of positions in the whole description.
pub proof fn lemma_early_face_resolves_against_final_count(lines: Seq<Seq<u8>>, m: int, k: int, s: int)
    requires
        0 <= m <= lines.len(),
        read_lines(lines, lines.len() as int) is Some,
        0 <= k < read_lines(lines, m).unwrap().faces.len(),
        0 <= s < 3,
        read_lines(lines, m).unwrap().faces[k].verts[s] < 0,
        index_ok(read_lines(lines, m).unwrap().faces[k].verts[s] as int, read_lines(lines, lines.len() as int).unwrap().verts.len() as int),
        read_lines(lines, lines.len() as int).unwrap().verts.len() <= usize::MAX,
    ensures
        read_lines(lines, m).unwrap().verts.len() <= read_lines(lines, lines.len() as int).unwrap().verts.len(),
        read_lines(lines, lines.len() as int).unwrap().faces[k] == read_lines(lines, m).unwrap().faces[k],
        ({
            let p = read_lines(lines, lines.len() as int).unwrap();
            resolved(p.faces[k], p.verts.len() as int, p.tex_uvs.len() as int, p.normals.len() as int).verts[s]
                == p.verts.len() + read_lines(lines, m).unwrap().faces[k].verts[s]
        }),
{
    let n = lines.len() as int;
    lemma_read_prefix(lines, m, n);
    let p = read_lines(lines, n).unwrap();
    let f = p.faces[k];
    let r = resolved(f, p.verts.len() as int, p.tex_uvs.len() as int, p.normals.len() as int);
    if s == 0 {
        assert(r.verts[0] == wrapped(f.verts[0] as int, p.verts.len() as int));
    } else if s == 1 {
        assert(r.verts[1] == wrapped(f.verts[1] as int, p.verts.len() as int));
    } else {
        assert(r.verts[2] == wrapped(f.verts[2] as int, p.verts.len() as int));
    }
}

} // verus!
