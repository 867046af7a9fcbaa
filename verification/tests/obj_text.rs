use ray1week::error::{GeometryType, ParseCause, WavefrontObjError};
use ray1week::number::{FloatError, IntError};
use ray1week::wavefront_obj::{path_ref_to_string, WavefrontObj};

const SQUARE: &str = "# a unit square\no square\nv 0 0 0\nv 1 0 0\nv 1 1 0\nv 0 1 0 2.5\nvt 0 0\nvt 1 0\nvt 1 1\nvt 0 1\nvn 0 0 1\ns off\nf 1/1/1 2/2/1 3/3/1 4/4/1\nl 1 2 3";

#[test]
fn reads_a_square() {
    let obj = WavefrontObj::from_text(SQUARE, "square.obj").unwrap();
    assert_eq!(obj.file, "square.obj");
    assert_eq!(obj.vertices.len(), 4);
    assert_eq!(obj.texture_coords.len(), 4);
    assert_eq!(obj.vertex_normals.len(), 1);
    assert_eq!(obj.faces.len(), 1);
    assert_eq!(obj.lines.len(), 1);
    assert_eq!(obj.vertices[1].x.text, "1");
    assert_eq!(obj.vertices[1].w.text, "1");
    assert_eq!(obj.vertices[3].w.text, "2.5");
    assert_eq!(obj.texture_coords[1].u.text, "1");
    assert_eq!(obj.texture_coords[1].w.text, "0");
    assert_eq!(obj.faces[0].row, 13);
    let corners = &obj.faces[0].corners;
    assert_eq!(corners.len(), 4);
    assert_eq!(corners[0].vertex, 0);
    assert_eq!(corners[3].vertex, 3);
    assert_eq!(corners[2].texture, Some(2));
    assert_eq!(corners[2].normal, Some(0));
    assert_eq!(obj.lines[0].vertices, vec![0, 1, 2]);
}

#[test]
fn square_is_cut_into_two_triangles() {
    let obj = WavefrontObj::from_text(SQUARE, "square.obj").unwrap();
    let surface = obj.triangulate_with_material(7u8);
    assert_eq!(surface.0.len(), 2);
    assert_eq!(surface.0[0].a.vertex, 0);
    assert_eq!(surface.0[0].b.vertex, 1);
    assert_eq!(surface.0[0].c.vertex, 2);
    assert_eq!(surface.0[1].a.vertex, 0);
    assert_eq!(surface.0[1].b.vertex, 2);
    assert_eq!(surface.0[1].c.vertex, 3);
    assert_eq!(surface.0[1].material, 7u8);
    assert_eq!(surface.0[1].face, 0);
}

#[test]
fn unknown_directive_is_reported_with_its_row() {
    let err = WavefrontObj::from_text("v 0 0 0\ncurv 1 2", "a.obj").unwrap_err();
    assert!(matches!(&err, WavefrontObjError::UnsupportedType(f, d, 2) if f == "a.obj" && d == "curv"));
    assert_eq!(err.message(), "a.obj: Encountered unsupported type curv in line 2");
}

#[test]
fn bad_number_is_a_parse_error() {
    let err = WavefrontObj::from_text("v 0 zero 0", "a.obj").unwrap_err();
    assert!(matches!(
        &err,
        WavefrontObjError::ParseError(_, 1, ParseCause::Float(FloatError::Invalid))
    ));
    assert_eq!(err.message(), "a.obj: Error parsing line 1: invalid float literal");
    let err = WavefrontObj::from_text("v 0  0", "a.obj").unwrap_err();
    assert_eq!(
        err.message(),
        "a.obj: Error parsing line 1: cannot parse float from empty string"
    );
}

#[test]
fn negative_indices_count_from_the_end() {
    let obj = WavefrontObj::from_text("v 0 0 0\nv 1 0 0\nv 0 1 0\nf -3 -2 -1\n", "m.obj").unwrap();
    let corners: Vec<isize> = obj.faces[0].corners.iter().map(|c| c.vertex).collect();
    assert_eq!(corners, vec![0, 1, 2]);
    assert_eq!(obj.triangulate_with_material(()).0.len(), 1);
    let obj = WavefrontObj::from_text("v 0 0 0\nv 1 0 0\nv 1 1 0\nf -1 -2 -3", "a.obj").unwrap();
    let corners: Vec<isize> = obj.faces[0].corners.iter().map(|c| c.vertex).collect();
    assert_eq!(corners, vec![2, 1, 0]);
}

#[test]
fn negative_and_positive_indices_name_the_same_elements() {
    let text = "v 0 0 0\nv 1 0 0\nv 1 1 0\nv 0 1 0\nvt 0 0\nvt 1 1\nvn 0 0 1\nf 1/1/1 2/2/1 4/-1/-1\nf -4/-2/1 -3/-1/-1 -1/2/1\nl 1 -1 -3";
    let obj = WavefrontObj::from_text(text, "a.obj").unwrap();
    let first = &obj.faces[0].corners;
    let second = &obj.faces[1].corners;
    for (a, b) in first.iter().zip(second.iter()) {
        assert_eq!((a.vertex, a.texture, a.normal), (b.vertex, b.texture, b.normal));
    }
    assert_eq!((first[2].vertex, first[2].texture, first[2].normal), (3, Some(1), Some(0)));
    assert_eq!(obj.lines[0].vertices, vec![0, 3, 1]);
}

#[test]
fn a_face_may_name_only_what_stands_before_the_end() {
    let obj = WavefrontObj::from_text("v 0 0 0\nf -1 -1 -1", "a.obj").unwrap();
    assert_eq!(obj.faces[0].corners[1].vertex, 0);
    let obj = WavefrontObj::from_text("f -1 -1 -1\nv 0 0 0\nv 1 1 1", "a.obj").unwrap();
    assert_eq!(obj.faces[0].corners[1].vertex, 1);
}

#[test]
fn an_index_beyond_either_end_points_at_nothing() {
    let err = WavefrontObj::from_text("v 0 0 0\nv 1 0 0\nv 1 1 0\nf -4 -2 -1", "a.obj").unwrap_err();
    assert!(matches!(
        &err,
        WavefrontObjError::InconsistentObject(_, 4, GeometryType::Face, GeometryType::Vertex, -4)
    ));
    assert_eq!(
        err.message(),
        "a.obj line 4: Face references vertex number -4, but it doesn't exist"
    );
    let err = WavefrontObj::from_text("v 0 0 0\nv 1 0 0\nv 1 1 0\nf 1 2 4", "a.obj").unwrap_err();
    assert!(matches!(
        &err,
        WavefrontObjError::InconsistentObject(_, 4, GeometryType::Face, GeometryType::Vertex, 4)
    ));
    let err = WavefrontObj::from_text("v 0 0 0\nf 1 0 1", "a.obj").unwrap_err();
    assert!(matches!(
        &err,
        WavefrontObjError::InconsistentObject(_, 2, GeometryType::Face, GeometryType::Vertex, 0)
    ));
    let err = WavefrontObj::from_text("f -1 -1 -1", "a.obj").unwrap_err();
    assert!(matches!(
        &err,
        WavefrontObjError::InconsistentObject(_, 1, GeometryType::Face, GeometryType::Vertex, -1)
    ));
    let err = WavefrontObj::from_text("v 0 0 0\nvt 0 0\nf 1/-2 1 1", "a.obj").unwrap_err();
    assert!(matches!(
        &err,
        WavefrontObjError::InconsistentObject(
            _,
            3,
            GeometryType::Face,
            GeometryType::TextureCoord,
            -2
        )
    ));
}

#[test]
fn face_index_errors() {
    let err = WavefrontObj::from_text("f 1 2", "a.obj").unwrap_err();
    assert!(matches!(&err, WavefrontObjError::IncompleteFace(_, 1)));
    let err = WavefrontObj::from_text("f 1/2/3/4 2 3", "a.obj").unwrap_err();
    assert!(matches!(&err, WavefrontObjError::ParseError(_, 1, ParseCause::MalformedIndex)));
    assert_eq!(err.message(), "a.obj: Error parsing line 1: Malformed index");
    let err = WavefrontObj::from_text("f 1 x 3", "a.obj").unwrap_err();
    assert!(matches!(
        &err,
        WavefrontObjError::ParseError(_, 1, ParseCause::Int(IntError::InvalidDigit))
    ));
}

#[test]
fn path_text_is_kept() {
    assert_eq!(path_ref_to_string("models/cow.obj"), "models/cow.obj");
}

#[test]
fn triangle_count_is_corners_minus_two_per_face() {
    let text = "v 0 0 0\nv 1 0 0\nv 1 1 0\nv 0 1 0\nv 2 2 2\nf 1 2 3\nf 1 2 3 4\nf 1 2 3 4 5\nf 5 4 3";
    let obj = WavefrontObj::from_text(text, "fan.obj").unwrap();
    let expected: usize = obj.faces.iter().map(|f| f.corners.len() - 2).sum();
    assert_eq!(expected, 1 + 2 + 3 + 1);
    let surface = obj.triangulate_with_material(());
    assert_eq!(surface.0.len(), expected);
    let fan: Vec<(usize, isize, isize, isize)> = surface
        .0
        .iter()
        .map(|t| (t.face, t.a.vertex, t.b.vertex, t.c.vertex))
        .collect();
    assert_eq!(
        fan,
        vec![
            (0, 0, 1, 2),
            (1, 0, 1, 2),
            (1, 0, 2, 3),
            (2, 0, 1, 2),
            (2, 0, 2, 3),
            (2, 0, 3, 4),
            (3, 4, 3, 2),
        ]
    );
}

#[test]
fn rows_with_too_few_or_too_many_numbers() {
    let err = WavefrontObj::from_text("v 1 2", "a.obj").unwrap_err();
    assert!(matches!(&err, WavefrontObjError::IncompleteVertex(_, 1)));
    assert_eq!(err.message(), "a.obj: Not enough data to form a vertex in line 1");
    let err = WavefrontObj::from_text("vn 1 2", "a.obj").unwrap_err();
    assert!(matches!(&err, WavefrontObjError::IncompleteNormal(_, 1)));
    let err = WavefrontObj::from_text("vn 1 2 3 4", "a.obj").unwrap_err();
    assert!(matches!(&err, WavefrontObjError::IncompleteNormal(_, 1)));
    assert_eq!(
        err.message(),
        "a.obj: Not enough data to form a vertex normal in line 1"
    );
    let obj = WavefrontObj::from_text("v 1 2 3 4 5 6\nvt 0.5\nvp 1\nvp 1 2\nvp 1 2 3 4", "a.obj").unwrap();
    assert_eq!(obj.vertices[0].w.text, "4");
    assert_eq!(obj.texture_coords[0].u.text, "0.5");
    assert_eq!(obj.texture_coords[0].v.text, "0");
    assert_eq!(obj.parameter_vertices.len(), 3);
    assert!(obj.parameter_vertices[0].v.is_none());
    assert_eq!(obj.parameter_vertices[1].v.as_ref().unwrap().text, "2");
    assert!(obj.parameter_vertices[1].w.is_none());
    assert_eq!(obj.parameter_vertices[2].w.as_ref().unwrap().text, "3");
    let err = WavefrontObj::from_text("v 1 2 3 x", "a.obj").unwrap_err();
    assert!(matches!(
        &err,
        WavefrontObjError::ParseError(_, 1, ParseCause::Float(FloatError::Invalid))
    ));
}

#[test]
fn a_number_error_comes_before_a_count_error() {
    let err = WavefrontObj::from_text("v 1 x", "a.obj").unwrap_err();
    assert!(matches!(&err, WavefrontObjError::ParseError(_, 1, ParseCause::Float(_))));
    let err = WavefrontObj::from_text("f 1 x", "a.obj").unwrap_err();
    assert!(matches!(&err, WavefrontObjError::IncompleteFace(_, 1)));
}

#[test]
fn carriage_returns_are_not_dropped() {
    let err = WavefrontObj::from_text("v 0 0 0\r\nv 1 1 1\r\n", "dos.obj").unwrap_err();
    assert!(matches!(
        &err,
        WavefrontObjError::ParseError(_, 1, ParseCause::Float(FloatError::Invalid))
    ));
}

#[test]
fn references_are_checked_in_the_order_of_the_text() {
    let text = "v 0 0 0\nv 1 0 0\nv 1 1 0\nvt 0 0\nf 1/1 2/2 4/1\nf 9 9 9";
    let err = WavefrontObj::from_text(text, "a.obj").unwrap_err();
    assert!(matches!(
        &err,
        WavefrontObjError::InconsistentObject(
            _,
            5,
            GeometryType::Face,
            GeometryType::TextureCoord,
            2
        )
    ));
    let text = "v 0 0 0\nv 1 0 0\nv 1 1 0\nf 1//1 2 3";
    let err = WavefrontObj::from_text(text, "a.obj").unwrap_err();
    assert!(matches!(
        &err,
        WavefrontObjError::InconsistentObject(_, 4, GeometryType::Face, GeometryType::Normal, 1)
    ));
    assert_eq!(
        err.message(),
        "a.obj line 4: Face references vertex normal number 1, but it doesn't exist"
    );
    let text = "v 0 0 0\nl 1 0";
    let err = WavefrontObj::from_text(text, "a.obj").unwrap_err();
    assert!(matches!(
        &err,
        WavefrontObjError::InconsistentObject(_, 2, GeometryType::Line, GeometryType::Vertex, 0)
    ));
    assert_eq!(
        err.message(),
        "a.obj line 2: Line references vertex number 0, but it doesn't exist"
    );
}

#[test]
fn faces_may_refer_to_vertices_that_come_later() {
    let text = "f 1 2 3\nv 0 0 0\nv 1 0 0\nv 1 1 0";
    let obj = WavefrontObj::from_text(text, "a.obj").unwrap();
    assert_eq!(obj.faces[0].corners[2].vertex, 2);
}

#[test]
fn polyline_errors() {
    let err = WavefrontObj::from_text("v 0 0 0\nl 1 1.5", "a.obj").unwrap_err();
    assert!(matches!(
        &err,
        WavefrontObjError::ParseError(_, 2, ParseCause::Int(IntError::InvalidDigit))
    ));
    assert_eq!(
        err.message(),
        "a.obj: Error parsing line 2: invalid digit found in string"
    );
    let err = WavefrontObj::from_text("l 1 ", "a.obj").unwrap_err();
    assert!(matches!(
        &err,
        WavefrontObjError::ParseError(_, 1, ParseCause::Int(IntError::Empty))
    ));
}

#[test]
fn parameter_points_keep_what_is_written() {
    let obj = WavefrontObj::from_text("vp 0.25\nvp 0.25 0.5\nvp 0.25 0.5 2", "a.obj").unwrap();
    let written: Vec<(String, Option<String>, Option<String>)> = obj
        .parameter_vertices
        .iter()
        .map(|p| {
            (
                p.u.text.clone(),
                p.v.as_ref().map(|n| n.text.clone()),
                p.w.as_ref().map(|n| n.text.clone()),
            )
        })
        .collect();
    assert_eq!(
        written,
        vec![
            ("0.25".to_owned(), None, None),
            ("0.25".to_owned(), Some("0.5".to_owned()), None),
            ("0.25".to_owned(), Some("0.5".to_owned()), Some("2".to_owned())),
        ]
    );
}
