//! Meshes in the Wavefront OBJ format: the mesh that a text describes.
//! Reading the text, checking its references and cutting its faces into
//! triangles each have a module of their own.
pub mod parse;
pub mod triangulate;
pub mod validate;

pub use crate::rows::ObjIndex;
pub use parse::{ObjParser, RowEvent};
pub use triangulate::{Facet, Surface};

use crate::number::{is_float_literal, Number};
use std::collections::HashMap;
use vstd::prelude::*;

verus! {

broadcast use {vstd::std_specs::hash::group_hash_axioms, vstd::string::group_string_axioms};

/// A point of the mesh in homogeneous coordinates.
#[derive(Debug)]
pub struct Vertex {
    pub x: Number,
    pub y: Number,
    pub z: Number,
    pub w: Number,
}

/// A texture coordinate.
#[derive(Debug)]
pub struct TextureCoord {
    pub u: Number,
    pub v: Number,
    pub w: Number,
}

/// A vertex normal.
#[derive(Debug)]
pub struct Normal {
    pub x: Number,
    pub y: Number,
    pub z: Number,
}

/// A point in the parameter space of a curve or surface.
#[derive(Debug)]
pub struct OptParams {
    pub u: Number,
    pub v: Option<Number>,
    pub w: Option<Number>,
}

/// A face: the row that holds it and its corners in order.
#[derive(Debug)]
pub struct Face {
    pub row: usize,
    pub corners: Vec<ObjIndex>,
}

/// A polyline: the row that holds it and its vertices in order.
#[derive(Debug)]
pub struct Polyline {
    pub row: usize,
    pub vertices: Vec<isize>,
}

impl View for Vertex {
    type V = Seq<Seq<char>>;

    open spec fn view(&self) -> Seq<Seq<char>> {
        seq![self.x@, self.y@, self.z@, self.w@]
    }
}

impl View for TextureCoord {
    type V = Seq<Seq<char>>;

    open spec fn view(&self) -> Seq<Seq<char>> {
        seq![self.u@, self.v@, self.w@]
    }
}

impl View for Normal {
    type V = Seq<Seq<char>>;

    open spec fn view(&self) -> Seq<Seq<char>> {
        seq![self.x@, self.y@, self.z@]
    }
}

/// The mathematical value of a point in parameter space: each number as
/// the text of its literal.
pub struct ParamsModel {
    pub u: Seq<char>,
    pub v: Option<Seq<char>>,
    pub w: Option<Seq<char>>,
}

impl ParamsModel {
    /// Every number that is there is a literal.
    pub open spec fn wf(self) -> bool {
        &&& is_float_literal(self.u)
        &&& self.v matches Some(v) ==> is_float_literal(v)
        &&& self.w matches Some(w) ==> is_float_literal(w)
    }
}

/// The text of `n`, where there is one.
pub open spec fn opt_number(n: Option<Number>) -> Option<Seq<char>> {
    match n {
        Some(x) => Some(x@),
        None => None,
    }
}

impl View for OptParams {
    type V = ParamsModel;

    open spec fn view(&self) -> ParamsModel {
        ParamsModel { u: self.u@, v: opt_number(self.v), w: opt_number(self.w) }
    }
}

impl View for Face {
    type V = (usize, Seq<ObjIndex>);

    open spec fn view(&self) -> (usize, Seq<ObjIndex>) {
        (self.row, self.corners@)
    }
}

impl View for Polyline {
    type V = (usize, Seq<isize>);

    open spec fn view(&self) -> (usize, Seq<isize>) {
        (self.row, self.vertices@)
    }
}

/// The texts of the names in `m`, under the same keys.
pub open spec fn names_of(m: Map<usize, String>) -> Map<usize, Seq<char>> {
    Map::new(|k: usize| m.contains_key(k), |k: usize| m[k]@)
}

/// Putting a name into a map puts its text into the map of the texts.
pub proof fn lemma_names_insert(m: Map<usize, String>, k: usize, v: String)
    ensures
        names_of(m.insert(k, v)) == names_of(m).insert(k, v@),
{
    assert(names_of(m.insert(k, v)) =~= names_of(m).insert(k, v@));
}

/// The mathematical value of a mesh: every number as the text of its
/// literal.
pub struct ObjModel {
    pub file: Seq<char>,
    /// Four numbers each: x, y, z, w.
    pub vertices: Seq<Seq<Seq<char>>>,
    /// Three numbers each: u, v, w.
    pub texture_coords: Seq<Seq<Seq<char>>>,
    /// Three numbers each: x, y, z.
    pub vertex_normals: Seq<Seq<Seq<char>>>,
    /// One to three numbers each: u and, where written, v and w.
    pub parameter_vertices: Seq<ParamsModel>,
    /// The row and the corners of each face.
    pub faces: Seq<(usize, Seq<ObjIndex>)>,
    /// The row and the vertices of each polyline.
    pub lines: Seq<(usize, Seq<isize>)>,
    /// The material library that the text names last.
    pub library: Option<Seq<char>>,
    /// The name of the material that was in use when a face corner was
    /// written, by the number of the corner among all corners of the text.
    pub mat_assign: Map<usize, Seq<char>>,
}

/// A mesh as its text describes it.
#[derive(Debug)]
pub struct WavefrontObj {
    pub file: String,
    pub vertices: Vec<Vertex>,
    pub texture_coords: Vec<TextureCoord>,
    pub vertex_normals: Vec<Normal>,
    pub parameter_vertices: Vec<OptParams>,
    pub faces: Vec<Face>,
    pub lines: Vec<Polyline>,
    pub library: Option<String>,
    pub mat_assign: HashMap<usize, String>,
}

/// The text of `s`, where there is one.
pub open spec fn opt_text(s: Option<String>) -> Option<Seq<char>> {
    match s {
        Some(t) => Some(t@),
        None => None,
    }
}

impl View for WavefrontObj {
    type V = ObjModel;

    open spec fn view(&self) -> ObjModel {
        ObjModel {
            file: self.file@,
            vertices: Seq::new(self.vertices@.len(), |i: int| self.vertices@[i]@),
            texture_coords: Seq::new(self.texture_coords@.len(), |i: int| self.texture_coords@[i]@),
            vertex_normals: Seq::new(self.vertex_normals@.len(), |i: int| self.vertex_normals@[i]@),
            parameter_vertices: Seq::new(
                self.parameter_vertices@.len(),
                |i: int| self.parameter_vertices@[i]@,
            ),
            faces: Seq::new(self.faces@.len(), |i: int| self.faces@[i]@),
            lines: Seq::new(self.lines@.len(), |i: int| self.lines@[i]@),
            library: opt_text(self.library),
            mat_assign: names_of(self.mat_assign@),
        }
    }
}

impl ObjModel {
    /// The mesh of a text without rows.
    pub open spec fn empty(file: Seq<char>) -> ObjModel {
        ObjModel {
            file,
            vertices: Seq::empty(),
            texture_coords: Seq::empty(),
            vertex_normals: Seq::empty(),
            parameter_vertices: Seq::empty(),
            faces: Seq::empty(),
            lines: Seq::empty(),
            library: None,
            mat_assign: Map::empty(),
        }
    }

    /// Every number is a literal, and every face has three corners or more.
    pub open spec fn wf(self) -> bool {
        &&& literals(self.vertices)
        &&& literals(self.texture_coords)
        &&& literals(self.vertex_normals)
        &&& forall|i: int|
            0 <= i < self.parameter_vertices.len() ==> (#[trigger] self.parameter_vertices[i]).wf()
        &&& forall|i: int| 0 <= i < self.faces.len() ==> (#[trigger] self.faces[i]).1.len() >= 3
    }
}

/// Every text in `records` is a real-number literal.
pub open spec fn literals(records: Seq<Seq<Seq<char>>>) -> bool {
    forall|i: int, j: int|
        0 <= i < records.len() && 0 <= j < records[i].len() ==> is_float_literal(
            #[trigger] records[i][j],
        )
}

impl WavefrontObj {
    /// The mesh of a text without rows.
    pub fn new(file: &str) -> (r: WavefrontObj)
        ensures
            r@ == ObjModel::empty(file@),
    {
        let r = WavefrontObj {
            file: file.to_owned(),
            vertices: Vec::new(),
            texture_coords: Vec::new(),
            vertex_normals: Vec::new(),
            parameter_vertices: Vec::new(),
            faces: Vec::new(),
            lines: Vec::new(),
            library: None,
            mat_assign: HashMap::new(),
        };
        proof {
            assert(r@.vertices =~= Seq::empty());
            assert(r@.texture_coords =~= Seq::empty());
            assert(r@.vertex_normals =~= Seq::empty());
            assert(r@.parameter_vertices =~= Seq::empty());
            assert(r@.faces =~= Seq::empty());
            assert(r@.lines =~= Seq::empty());
            assert(r@.mat_assign =~= Map::empty());
        }
        r
    }
}

/// The text of the path `path`.
pub fn path_ref_to_string(path: &str) -> (r: String)
    ensures
        r@ == path@,
{
    path.to_owned()
}

} // verus!
