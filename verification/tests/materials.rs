use ray1week::error::{ParseCause, WavefrontObjError};
use ray1week::mtl::{IlluminationModel, MtlEvent, MtlLib, MtlParser};
use ray1week::number::FloatError;
use ray1week::text::chars_of;
use ray1week::wavefront_obj::{ObjParser, RowEvent, WavefrontObj};

const CUBE: &str = "mtllib cube.mtl\nv 0 0 0\nv 1 0 0\nv 1 1 0\nv 0 1 0\nvt 0 0\nvt 1 0\nvt 1 1\nf 1 2 3\nusemtl red\nf 1/1 2/2 3/3\nf 1 3 4\nusemtl shiny steel\nf 1 2 3 4\nf 2 3 4";

const LIBRARY: &str = "# materials\nnewmtl white\nKd 1 1 1\n\nnewmtl red\n  Kd 1 0 0  \nKa 0.1 0 0\nNs 10\nd 0.25\nillum 2\nnewmtl steel\nKs 0.5 0.5 0.5\nTr 0.5\nNi 1.45\nTf 1 1 1\nKe 0 0 0\nmap_Kd steel.png\nillum 10";

#[test]
fn each_corner_after_a_material_row_has_the_material() {
    let obj = WavefrontObj::from_text(CUBE, "cube.obj").unwrap();
    assert_eq!(obj.library.as_deref(), Some("cube.mtl"));
    assert_eq!(obj.mat_assign.len(), 13);
    for corner in 0..3 {
        assert!(!obj.mat_assign.contains_key(&corner));
    }
    for corner in 3..9 {
        assert_eq!(obj.mat_assign[&corner], "red");
    }
    for corner in 9..16 {
        assert_eq!(obj.mat_assign[&corner], "shiny steel");
    }
    assert!(!obj.mat_assign.contains_key(&16));
}

#[test]
fn materials_without_a_library_are_refused() {
    let err = WavefrontObj::from_text("v 0 0 0\nusemtl red\nf 1 1 1", "a.obj").unwrap_err();
    assert!(matches!(&err, WavefrontObjError::NoMaterial(f) if f == "a.obj"));
    assert_eq!(err.message(), "File a.obj contains no mtllib directive");
    let obj = WavefrontObj::from_text("v 0 0 0\nusemtl red", "a.obj").unwrap();
    assert!(obj.mat_assign.is_empty());
}

#[test]
fn rows_can_be_fed_one_by_one() {
    let mut parser = ObjParser::new("cube.obj");
    let event = parser.feed_row(&chars_of("mtllib cube.mtl"), 1).unwrap();
    assert!(matches!(event, RowEvent::LibraryWanted(name) if name == "cube.mtl"));
    let event = parser.feed_row(&chars_of("v 1 2 3"), 2).unwrap();
    assert!(matches!(event, RowEvent::Nothing));
    let event = parser.feed_row(&chars_of("usemtl a b"), 3).unwrap();
    assert!(matches!(event, RowEvent::Nothing));
    assert_eq!(parser.current_material.as_deref(), Some("a b"));
    parser.feed_row(&chars_of("f 1 1 1"), 4).unwrap();
    assert_eq!(parser.corner_count, 3);
    let err = parser.feed_row(&chars_of("g group"), 5).unwrap_err();
    assert!(matches!(&err, WavefrontObjError::UnsupportedType(_, d, 5) if d == "g"));
    let obj = parser.finish().unwrap();
    assert_eq!(obj.faces[0].corners[0].vertex, 0);
    assert_eq!(obj.mat_assign.len(), 3);
    assert_eq!(obj.mat_assign[&2], "a b");
}

#[test]
fn library_is_read() {
    let lib = MtlLib::from_text(LIBRARY, "cube.mtl").unwrap();
    assert_eq!(lib.materials.len(), 3);
    assert_eq!(lib.materials[&0].diffuse.r.text, "1");
    assert_eq!(lib.materials[&0].diffuse.b.text, "1");
    assert_eq!(lib.materials[&1].diffuse.g.text, "0");
    assert_eq!(lib.materials[&1].ambient.r.text, "0.1");
    assert_eq!(lib.materials[&1].exponent.text, "10");
    assert!(lib.materials[&1].transmission.complement);
    assert_eq!(lib.materials[&1].transmission.value.text, "0.25");
    assert_eq!(lib.materials[&1].illumination, IlluminationModel::Highlight);
    assert!(!lib.materials[&2].transmission.complement);
    assert_eq!(lib.materials[&2].transmission.value.text, "0.5");
    assert_eq!(lib.materials[&2].density.text, "1.45");
    assert_eq!(lib.materials[&2].specular.g.text, "0.5");
    assert_eq!(lib.materials[&2].diffuse_texture.as_deref(), Some("steel.png"));
    assert_eq!(lib.materials[&2].illumination, IlluminationModel::Shadows);
    assert_eq!(lib.materials[&0].illumination, IlluminationModel::ColourNoAmbient);
    assert_eq!(lib.materials[&0].exponent.text, "0");
    assert!(lib.materials[&0].diffuse_texture.is_none());
}

#[test]
fn a_material_is_filed_under_the_name_that_follows_it() {
    let lib = MtlLib::from_text(LIBRARY, "cube.mtl").unwrap();
    let names: Vec<(&str, usize)> = lib
        .material_names
        .iter()
        .map(|(n, i)| (n.as_str(), *i))
        .collect();
    assert_eq!(names, vec![("red", 0), ("steel", 1), ("steel", 2)]);
    assert_eq!(lib.index_of("white"), None);
    assert_eq!(lib.index_of("red"), Some(0));
    assert_eq!(lib.index_of("steel"), Some(2));
    assert_eq!(lib.index_of(""), None);
}

#[test]
fn empty_library() {
    let lib = MtlLib::from_text("# nothing\n\n", "e.mtl").unwrap();
    assert!(lib.materials.is_empty());
    assert!(lib.material_names.is_empty());
    let lib = MtlLib::from_text("Kd 1 1 1", "e.mtl").unwrap();
    assert!(lib.materials.is_empty());
    let lib = MtlLib::from_text("newmtl only", "e.mtl").unwrap();
    assert_eq!(lib.materials.len(), 1);
    assert_eq!(lib.index_of("only"), Some(0));
}

#[test]
fn library_errors() {
    let err = MtlLib::from_text("newmtl a\nKd 1 1", "m.mtl").unwrap_err();
    assert!(matches!(&err, WavefrontObjError::IncompleteColour(f, 2) if f == "m.mtl"));
    assert_eq!(err.message(), "m.mtl: Not enough data to form a colour in line 2");
    let err = MtlLib::from_text("Kd 1 1 x 1", "m.mtl").unwrap_err();
    assert!(matches!(&err, WavefrontObjError::IncompleteColour(_, 1)));
    let err = MtlLib::from_text("Kd 1 1 x", "m.mtl").unwrap_err();
    assert!(matches!(
        &err,
        WavefrontObjError::ParseError(_, 1, ParseCause::Float(FloatError::Invalid))
    ));
    let err = MtlLib::from_text("Ns 1 2", "m.mtl").unwrap_err();
    assert!(matches!(
        &err,
        WavefrontObjError::ParseError(_, 1, ParseCause::Float(FloatError::Invalid))
    ));
    let err = MtlLib::from_text("\n\nillum 11", "m.mtl").unwrap_err();
    assert!(matches!(
        &err,
        WavefrontObjError::UnknownIlluminationModel(_, 3, m) if m == "11"
    ));
    assert_eq!(
        err.message(),
        "m.mtl, line 3: Encountered unknown illumination model '11'"
    );
    let err = MtlLib::from_text("#comment", "m.mtl").unwrap_err();
    assert!(matches!(&err, WavefrontObjError::UnsupportedType(_, d, 1) if d == "#comment"));
    let err = MtlLib::from_text("Ka", "m.mtl").unwrap_err();
    assert!(matches!(&err, WavefrontObjError::UnsupportedType(_, d, 1) if d == "Ka"));
    assert_eq!(err.message(), "m.mtl: Encountered unsupported type Ka in line 1");
}

#[test]
fn illumination_models() {
    let names = [
        IlluminationModel::ColourNoAmbient,
        IlluminationModel::ColourAmbient,
        IlluminationModel::Highlight,
        IlluminationModel::ReflectionRaytrace,
        IlluminationModel::GlassReflection,
        IlluminationModel::ReflectionFresnel,
        IlluminationModel::RefractionNoFresnel,
        IlluminationModel::RefractionFresnel,
        IlluminationModel::ReflectionOnly,
        IlluminationModel::GlassNoReflection,
        IlluminationModel::Shadows,
    ];
    for (n, model) in names.iter().enumerate() {
        let row = format!("illum {}", n);
        assert_eq!(IlluminationModel::parse(&row, 1, "m.mtl").unwrap(), *model);
    }
    let err = IlluminationModel::parse("illum 01", 7, "m.mtl").unwrap_err();
    assert!(matches!(&err, WavefrontObjError::UnknownIlluminationModel(f, 7, m) if f == "m.mtl" && m == "01"));
    let err = IlluminationModel::parse("illum 2 ", 7, "m.mtl").unwrap_err();
    assert!(matches!(&err, WavefrontObjError::UnknownIlluminationModel(_, 7, m) if m == "2 "));
    let err = IlluminationModel::parse("illum", 7, "m.mtl").unwrap_err();
    assert!(matches!(
        &err,
        WavefrontObjError::ParseError(f, 7, ParseCause::MissingArgument(row)) if f == "m.mtl" && row == "illum"
    ));
    assert_eq!(
        err.message(),
        "m.mtl: Error parsing line 7: Missing argument for directive illum"
    );
    assert_eq!(IlluminationModel::default(), IlluminationModel::ColourNoAmbient);
}

#[test]
fn material_rows_can_be_fed_one_by_one() {
    let mut parser = MtlParser::new("m.mtl");
    assert!(matches!(parser.feed_row(&chars_of("newmtl a"), 1), Ok(MtlEvent::Nothing)));
    let event = parser.feed_row(&chars_of("\tmap_Kd wood.jpg\r"), 2).unwrap();
    assert!(matches!(event, MtlEvent::TextureWanted(name) if name == "wood.jpg"));
    assert!(parser.started);
    assert_eq!(parser.current_name, "a");
    let lib = parser.finish();
    assert_eq!(lib.materials[&0].diffuse_texture.as_deref(), Some("wood.jpg"));
}

#[test]
fn triangles_get_the_places_of_their_materials() {
    let obj = WavefrontObj::from_text(CUBE, "cube.obj").unwrap();
    let lib = MtlLib::from_text("newmtl x\nnewmtl red\nnewmtl shiny steel", "cube.mtl").unwrap();
    assert!(obj.materials_known(&lib));
    let surface = obj.triangulate(Some(&lib)).unwrap();
    assert_eq!(surface.0.len(), 1 + 1 + 1 + 2 + 1);
    let per_triangle: Vec<(usize, Option<usize>)> =
        surface.0.iter().map(|t| (t.face, t.material)).collect();
    assert_eq!(
        per_triangle,
        vec![
            (0, None),
            (1, None),
            (2, None),
            (3, Some(0)),
            (3, Some(0)),
            (4, Some(0)),
        ]
    );
    assert_eq!(surface.0[1].a.texture, Some(0));
    assert_eq!(surface.0[1].c.texture, Some(2));
}

#[test]
fn unknown_material_names_are_found_out() {
    let obj = WavefrontObj::from_text(CUBE, "cube.obj").unwrap();
    let lib = MtlLib::from_text("newmtl red", "cube.mtl").unwrap();
    assert!(obj.materials_known(&lib));
    let lib = MtlLib::from_text("newmtl blue", "cube.mtl").unwrap();
    assert!(!obj.materials_known(&lib));
}

#[test]
fn no_library_no_surface() {
    let obj = WavefrontObj::from_text("v 0 0 0\nf 1 1 1", "a.obj").unwrap();
    let err = obj.triangulate(None).unwrap_err();
    assert!(matches!(&err, WavefrontObjError::NoMaterial(f) if f == "a.obj"));
}

#[test]
fn an_open_material_knows_its_number() {
    let mut parser = MtlParser::new("m.mtl");
    assert_eq!(parser.open_number(), 0);
    parser.feed_row(&chars_of("newmtl a"), 1).unwrap();
    assert_eq!(parser.open_number(), 0);
    parser.feed_row(&chars_of("newmtl b"), 2).unwrap();
    assert_eq!(parser.open_number(), 1);
    parser.feed_row(&chars_of("Kd 0.5 0.5 0.5"), 3).unwrap();
    let place = parser.open_number();
    let lib = parser.finish();
    assert_eq!(lib.materials.len(), place + 1);
    assert_eq!(lib.materials[&place].diffuse.r.text, "0.5");
}

#[test]
fn a_triangle_is_textured_if_all_its_corners_are() {
    let text = "v 0 0 0\nv 1 0 0\nv 1 1 0\nvt 0 0\nf 1/1 2/1 3/1\nf 1/1 2 3/1\nf 1 2 3";
    let obj = WavefrontObj::from_text(text, "a.obj").unwrap();
    let surface = obj.triangulate_with_material(0u8);
    let textured: Vec<bool> = surface.0.iter().map(|t| t.is_textured()).collect();
    assert_eq!(textured, vec![true, false, false]);
}
