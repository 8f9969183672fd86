use softrast::{
    parse_face_slot, parse_int, parse_obj, parse_record, split_fields, split_pieces, MalformedRecord, MeshError, ObjError, Record,
};

fn bytes(fields: &[Vec<u8>]) -> Vec<String> {
    fields.iter().map(|f| String::from_utf8(f.clone()).unwrap()).collect()
}

#[test]
fn fields_split_on_whitespace_runs() {
    assert_eq!(bytes(&split_fields(b"  v 1.0\t2  3 \r")), vec!["v", "1.0", "2", "3"]);
    assert!(split_fields(b"   ").is_empty());
    assert!(split_fields(b"").is_empty());
}

#[test]
fn pieces_keep_empty_parts() {
    assert_eq!(bytes(&split_pieces(b"1//3", b'/')), vec!["1", "", "3"]);
    assert_eq!(bytes(&split_pieces(b"7", b'/')), vec!["7"]);
    assert_eq!(bytes(&split_pieces(b"", b'/')), vec![""]);
}

#[test]
fn integers_parse_with_sign_and_range() {
    assert_eq!(parse_int(b"42"), Some(42));
    assert_eq!(parse_int(b"-1"), Some(-1));
    assert_eq!(parse_int(b"+8"), Some(8));
    assert_eq!(parse_int(b"9223372036854775807"), Some(i64::MAX));
    assert_eq!(parse_int(b"-9223372036854775808"), Some(i64::MIN));
    assert_eq!(parse_int(b"9223372036854775808"), None);
    assert_eq!(parse_int(b"-"), None);
    assert_eq!(parse_int(b""), None);
    assert_eq!(parse_int(b"1x"), None);
}

#[test]
fn face_slots_need_all_three_indices() {
    assert_eq!(parse_face_slot(b"1/2/3"), Some((1, 2, 3)));
    assert_eq!(parse_face_slot(b"-1/-2/4"), Some((-1, -2, 4)));
    assert_eq!(parse_face_slot(b"-1//4"), None);
    assert_eq!(parse_face_slot(b"5"), None);
    assert_eq!(parse_face_slot(b"5/6"), None);
    assert_eq!(parse_face_slot(b"1/2/3/4"), None);
    assert_eq!(parse_face_slot(b"/2/3"), None);
    assert_eq!(parse_face_slot(b"1/a/3"), None);
}

#[test]
fn records_are_classified() {
    match parse_record(b"v 1 2.5 -3") {
        Ok(Record::Position(f)) => assert_eq!(bytes(&f), vec!["1", "2.5", "-3"]),
        _ => panic!("expected a position"),
    }
    match parse_record(b"vt 0.5 0.25") {
        Ok(Record::TexCoord(f)) => assert_eq!(bytes(&f), vec!["0.5", "0.25"]),
        _ => panic!("expected a texcoord"),
    }
    match parse_record(b"vn 0 0 1") {
        Ok(Record::Normal(f)) => assert_eq!(bytes(&f), vec!["0", "0", "1"]),
        _ => panic!("expected a normal"),
    }
    match parse_record(b"f 1/1/1 2/2/2 -1/-1/-1") {
        Ok(Record::Face(f)) => {
            assert_eq!(f.verts, [1, 2, -1]);
            assert_eq!(f.tex_uvs, Some([1, 2, -1]));
            assert_eq!(f.normals, Some([1, 2, -1]));
        }
        _ => panic!("expected a face"),
    }
    assert!(matches!(parse_record(b"# comment"), Ok(Record::Ignored)));
    assert!(matches!(parse_record(b""), Ok(Record::Ignored)));
    assert!(matches!(parse_record(b"vp 1 2"), Ok(Record::Ignored)));
}

#[test]
fn malformed_records_are_rejected() {
    assert_eq!(parse_record(b"v 1 2").err(), Some(MalformedRecord));
    assert_eq!(parse_record(b"vt 1").err(), Some(MalformedRecord));
    assert_eq!(parse_record(b"vt 1 2 3").err(), Some(MalformedRecord));
    assert_eq!(parse_record(b"vt 1 2 3 4").err(), Some(MalformedRecord));
    assert_eq!(parse_record(b"f 1 2 3").err(), Some(MalformedRecord));
    assert_eq!(parse_record(b"f 1//1 2//2 3//3").err(), Some(MalformedRecord));
    assert_eq!(parse_record(b"vn 1 2 3 4").err(), Some(MalformedRecord));
    assert_eq!(parse_record(b"f 1 2").err(), Some(MalformedRecord));
    assert_eq!(parse_record(b"f 1 2 3 4").err(), Some(MalformedRecord));
    assert_eq!(parse_record(b"f 1/1 2 3").err(), Some(MalformedRecord));
    assert_eq!(parse_record(b"f 1 2 x").err(), Some(MalformedRecord));
}

fn lines(text: &str) -> Vec<Vec<u8>> {
    text.lines().map(|l| l.as_bytes().to_vec()).collect()
}

#[test]
fn face_before_its_vertices_uses_final_pool_size() {
    let mut text = String::from("v 0 0 0\nvt 0 0\nvn 0 0 1\nf -1/1/1 1/1/1 2/1/1\n");
    for k in 1..10 {
        text.push_str(&format!("v {} 0 0\n", k));
    }
    let obj = parse_obj(&lines(&text)).unwrap();
    assert_eq!(obj.verts.len(), 10);
    assert_eq!(obj.faces[0].verts, [9, 0, 1]);
    assert_eq!(bytes(&obj.verts[9].fields), vec!["9", "0", "0"]);
    assert_eq!(obj.verts[9].line, 12);
}

#[test]
fn description_with_all_record_kinds() {
    let text = "# a triangle\nv 0 0 0\nv 1 0 0\nv 0 1 0\nvt 0 0\nvt 1 0\nvt 0 1\nvt 1 1\nvn 0 0 1\n\nf 1/1/1 2/2/1 3/-1/1\n";
    let obj = parse_obj(&lines(text)).unwrap();
    assert_eq!((obj.verts.len(), obj.tex_uvs.len(), obj.normals.len()), (3, 4, 1));
    assert_eq!(obj.faces[0].verts, [0, 1, 2]);
    assert_eq!(obj.faces[0].tex_uvs, Some([0, 1, 3]));
    assert_eq!(obj.faces[0].normals, Some([0, 0, 0]));
    assert_eq!(bytes(&obj.tex_uvs[1].fields), vec!["1", "0"]);
}

#[test]
fn description_errors_name_their_cause() {
    assert_eq!(parse_obj(&lines("v 0 0 0\nv 1 2\n")).err(), Some(ObjError::Malformed(1)));
    assert_eq!(parse_obj(&lines("vt 1 2 3\n")).err(), Some(ObjError::Malformed(0)));
    let pools = "v 0 0 0\nv 1 1 1\nvt 0 0\nvn 0 0 1\n";
    assert_eq!(parse_obj(&lines(&format!("{}f 1/1/1 2/1/1 3/1/1\n", pools))).err(), Some(ObjError::IndexOutOfRange(MeshError::VertexIndexOutOfRange)));
    assert_eq!(parse_obj(&lines(&format!("{}f 1/1/1 2/2/1 1/1/1\n", pools))).err(), Some(ObjError::IndexOutOfRange(MeshError::TexCoordIndexOutOfRange)));
    assert_eq!(parse_obj(&lines(&format!("{}f 1/1/1 2/1/1 1/1/-2\n", pools))).err(), Some(ObjError::IndexOutOfRange(MeshError::NormalIndexOutOfRange)));
    assert!(parse_obj(&lines("")).unwrap().faces.is_empty());
}
