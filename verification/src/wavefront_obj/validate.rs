//! Checking that every reference of a mesh points at one of its elements.
use crate::error::{ErrorView, GeometryType, WavefrontObjError};
use crate::rows::ObjIndex;
use crate::wavefront_obj::{Face, ObjModel, Polyline, WavefrontObj};
use vstd::prelude::*;

verus! {

broadcast use vstd::std_specs::hash::group_hash_axioms;

/// The place, counted from zero, at which the index `index`, as written,
/// points among `count` elements. A positive index counts from the first
/// element, which is number one; a negative index counts from the last,
/// which is number minus one.
pub open spec fn resolve(index: isize, count: nat) -> int {
    if index < 0 {
        count + index
    } else {
        index - 1
    }
}

/// Whether the index `index`, as written, points at one of `count` elements.
pub open spec fn refers(index: isize, count: nat) -> bool {
    0 <= resolve(index, count) < count
}

/// An index points at an element exactly if it lies between one and the
/// number of elements, or between minus that number and minus one. Zero
/// points at nothing. Number `k` from the end is number `count - k + 1` from
/// the start.
pub proof fn lemma_refers(index: isize, count: nat)
    ensures
        refers(index, count) <==> (1 <= index <= count || -(count as int) <= index <= -1),
        !refers(0isize, count),
        index < 0 ==> resolve(index, count) + 1 == count - (-index) + 1,
        refers(index, count) && index > 0 ==> resolve(index, count) == index - 1,
        count > 0 ==> resolve(-1isize, count) == count - 1 && resolve(1isize, count) == 0,
{
}

/// The first reference of the corner `c` that points at nothing: the kind
/// it refers to and the index as written.
pub open spec fn corner_fault(c: ObjIndex, nv: nat, nt: nat, nn: nat) -> Option<
    (GeometryType, isize),
> {
    if !refers(c.vertex, nv) {
        Some((GeometryType::Vertex, c.vertex))
    } else if c.texture is Some && !refers(c.texture->0, nt) {
        Some((GeometryType::TextureCoord, c.texture->0))
    } else if c.normal is Some && !refers(c.normal->0, nn) {
        Some((GeometryType::Normal, c.normal->0))
    } else {
        None
    }
}

/// The index `index`, where there is one, counted from zero.
pub open spec fn resolved_option(index: Option<isize>, count: nat) -> Option<isize> {
    match index {
        Some(i) => Some(resolve(i, count) as isize),
        None => None,
    }
}

/// The corner `c` with each index counted from zero.
pub open spec fn resolved_corner(c: ObjIndex, nv: nat, nt: nat, nn: nat) -> ObjIndex {
    ObjIndex {
        vertex: resolve(c.vertex, nv) as isize,
        texture: resolved_option(c.texture, nt),
        normal: resolved_option(c.normal, nn),
    }
}

/// The first reference among the corners `cs` that points at nothing.
pub open spec fn corners_fault(cs: Seq<ObjIndex>, nv: nat, nt: nat, nn: nat) -> Option<
    (GeometryType, isize),
>
    decreases cs.len(),
{
    if cs.len() == 0 {
        None
    } else {
        match corner_fault(cs[0], nv, nt, nn) {
            Some(f) => Some(f),
            None => corners_fault(cs.drop_first(), nv, nt, nn),
        }
    }
}

/// The corners `cs` with each index counted from zero.
pub open spec fn resolved_corners(cs: Seq<ObjIndex>, nv: nat, nt: nat, nn: nat) -> Seq<ObjIndex> {
    Seq::new(cs.len(), |k: int| resolved_corner(cs[k], nv, nt, nn))
}

/// The first reference among the faces `faces` that points at nothing, with
/// the row of its face.
pub open spec fn faces_fault(
    faces: Seq<(usize, Seq<ObjIndex>)>,
    nv: nat,
    nt: nat,
    nn: nat,
) -> Option<(usize, GeometryType, isize)>
    decreases faces.len(),
{
    if faces.len() == 0 {
        None
    } else {
        match corners_fault(faces[0].1, nv, nt, nn) {
            Some(f) => Some((faces[0].0, f.0, f.1)),
            None => faces_fault(faces.drop_first(), nv, nt, nn),
        }
    }
}

/// The faces `faces` with each index counted from zero.
pub open spec fn resolved_faces(
    faces: Seq<(usize, Seq<ObjIndex>)>,
    nv: nat,
    nt: nat,
    nn: nat,
) -> Seq<(usize, Seq<ObjIndex>)> {
    Seq::new(faces.len(), |k: int| (faces[k].0, resolved_corners(faces[k].1, nv, nt, nn)))
}

/// The first vertex among `vs` that points at nothing.
pub open spec fn vertices_fault(vs: Seq<isize>, nv: nat) -> Option<isize>
    decreases vs.len(),
{
    if vs.len() == 0 {
        None
    } else if !refers(vs[0], nv) {
        Some(vs[0])
    } else {
        vertices_fault(vs.drop_first(), nv)
    }
}

/// The vertices `vs`, each counted from zero.
pub open spec fn resolved_vertices(vs: Seq<isize>, nv: nat) -> Seq<isize> {
    Seq::new(vs.len(), |k: int| resolve(vs[k], nv) as isize)
}

/// The first vertex among the polylines `lines` that points at nothing, with
/// the row of its polyline.
pub open spec fn lines_fault(lines: Seq<(usize, Seq<isize>)>, nv: nat) -> Option<(usize, isize)>
    decreases lines.len(),
{
    if lines.len() == 0 {
        None
    } else {
        match vertices_fault(lines[0].1, nv) {
            Some(i) => Some((lines[0].0, i)),
            None => lines_fault(lines.drop_first(), nv),
        }
    }
}

/// The polylines `lines` with each vertex counted from zero.
pub open spec fn resolved_lines(lines: Seq<(usize, Seq<isize>)>, nv: nat) -> Seq<
    (usize, Seq<isize>),
> {
    Seq::new(lines.len(), |k: int| (lines[k].0, resolved_vertices(lines[k].1, nv)))
}

/// Checking a mesh: materials need a library; every reference of a face,
/// then of a polyline, must point at an element of the mesh. The first
/// fault, in the order of the text, is reported. A mesh without fault comes
/// back with every index counted from zero.
pub open spec fn validate_spec(m: ObjModel) -> Result<ObjModel, ErrorView> {
    let nv = m.vertices.len();
    let nt = m.texture_coords.len();
    let nn = m.vertex_normals.len();
    if m.mat_assign.len() > 0 && m.library is None {
        Err(ErrorView::NoMaterial(m.file))
    } else {
        match faces_fault(m.faces, nv, nt, nn) {
            Some(f) => Err(
                ErrorView::InconsistentObject(m.file, f.0, GeometryType::Face, f.1, f.2),
            ),
            None => match lines_fault(m.lines, nv) {
                Some(f) => Err(
                    ErrorView::InconsistentObject(
                        m.file,
                        f.0,
                        GeometryType::Line,
                        GeometryType::Vertex,
                        f.1,
                    ),
                ),
                None => Ok(
                    ObjModel {
                        faces: resolved_faces(m.faces, nv, nt, nn),
                        lines: resolved_lines(m.lines, nv),
                        ..m
                    },
                ),
            },
        }
    }
}

impl ObjModel {
    /// The vertices, the texture coordinates and the normals are each few
    /// enough for an index to count them.
    pub open spec fn countable(self) -> bool {
        &&& self.vertices.len() <= isize::MAX
        &&& self.texture_coords.len() <= isize::MAX
        &&& self.vertex_normals.len() <= isize::MAX
    }

    /// Every index of a face or polyline, counted from zero, points at an
    /// element of the mesh.
    pub open spec fn indexed(self) -> bool {
        &&& forall|i: int, j: int|
            0 <= i < self.faces.len() && 0 <= j < self.faces[i].1.len() ==> corner_indexed(
                #[trigger] self.faces[i].1[j],
                self.vertices.len(),
                self.texture_coords.len(),
                self.vertex_normals.len(),
            )
        &&& forall|i: int, j: int|
            0 <= i < self.lines.len() && 0 <= j < self.lines[i].1.len() ==> 0
                <= #[trigger] self.lines[i].1[j] < self.vertices.len()
    }
}

/// Every index of the corner `c`, counted from zero, lies below its count.
pub open spec fn corner_indexed(c: ObjIndex, nv: nat, nt: nat, nn: nat) -> bool {
    &&& 0 <= c.vertex < nv
    &&& c.texture matches Some(t) ==> 0 <= t < nt
    &&& c.normal matches Some(n) ==> 0 <= n < nn
}

fn resolve_index(index: isize, count: usize) -> (r: Option<isize>)
    requires
        count <= isize::MAX,
    ensures
        r == if refers(index, count as nat) {
            Some(resolve(index, count as nat) as isize)
        } else {
            None::<isize>
        },
{
    let n: i128 = count as i128;
    let i: i128 = index as i128;
    let at: i128 = if i < 0 {
        n + i
    } else {
        i - 1
    };
    if 0 <= at && at < n {
        Some(at as isize)
    } else {
        None
    }
}

fn resolve_optional(index: Option<isize>, count: usize) -> (r: Result<Option<isize>, isize>)
    requires
        count <= isize::MAX,
    ensures
        match index {
            Some(i) => if refers(i, count as nat) {
                r == Ok::<Option<isize>, isize>(resolved_option(index, count as nat))
            } else {
                r == Err::<Option<isize>, isize>(i)
            },
            None => r == Ok::<Option<isize>, isize>(None),
        },
{
    match index {
        None => Ok(None),
        Some(i) => match resolve_index(i, count) {
            Some(at) => Ok(Some(at)),
            None => Err(i),
        },
    }
}

fn resolve_corner(c: ObjIndex, nv: usize, nt: usize, nn: usize) -> (r: Result<
    ObjIndex,
    (GeometryType, isize),
>)
    requires
        nv <= isize::MAX,
        nt <= isize::MAX,
        nn <= isize::MAX,
    ensures
        match corner_fault(c, nv as nat, nt as nat, nn as nat) {
            Some(f) => r == Err::<ObjIndex, (GeometryType, isize)>(f),
            None => r == Ok::<ObjIndex, (GeometryType, isize)>(
                resolved_corner(c, nv as nat, nt as nat, nn as nat),
            ),
        },
{
    let vertex = match resolve_index(c.vertex, nv) {
        Some(at) => at,
        None => {
            return Err((GeometryType::Vertex, c.vertex));
        },
    };
    let texture = match resolve_optional(c.texture, nt) {
        Ok(t) => t,
        Err(i) => {
            return Err((GeometryType::TextureCoord, i));
        },
    };
    let normal = match resolve_optional(c.normal, nn) {
        Ok(n) => n,
        Err(i) => {
            return Err((GeometryType::Normal, i));
        },
    };
    Ok(ObjIndex { vertex, texture, normal })
}

fn resolve_corners(cs: &Vec<ObjIndex>, nv: usize, nt: usize, nn: usize) -> (r: Result<
    Vec<ObjIndex>,
    (GeometryType, isize),
>)
    requires
        nv <= isize::MAX,
        nt <= isize::MAX,
        nn <= isize::MAX,
    ensures
        match corners_fault(cs@, nv as nat, nt as nat, nn as nat) {
            Some(f) => r == Err::<Vec<ObjIndex>, (GeometryType, isize)>(f),
            None => r matches Ok(v) && v@ == resolved_corners(cs@, nv as nat, nt as nat, nn as nat),
        },
{
    let mut v: Vec<ObjIndex> = Vec::new();
    let mut i: usize = 0;
    proof {
        assert(cs@.skip(0) =~= cs@);
    }
    while i < cs.len()
        invariant
            nv <= isize::MAX,
            nt <= isize::MAX,
            nn <= isize::MAX,
            i <= cs@.len(),
            corners_fault(cs@, nv as nat, nt as nat, nn as nat) == corners_fault(
                cs@.skip(i as int),
                nv as nat,
                nt as nat,
                nn as nat,
            ),
            v@.len() == i,
            forall|k: int|
                0 <= k < i ==> #[trigger] v@[k] == resolved_corner(
                    cs@[k],
                    nv as nat,
                    nt as nat,
                    nn as nat,
                ),
        decreases cs@.len() - i,
    {
        proof {
            assert(cs@.skip(i as int)[0] == cs@[i as int]);
            assert(cs@.skip(i as int).drop_first() =~= cs@.skip(i as int + 1));
        }
        match resolve_corner(cs[i], nv, nt, nn) {
            Ok(c) => {
                v.push(c);
            },
            Err(f) => {
                return Err(f);
            },
        }
        i = i + 1;
    }
    proof {
        assert(v@ =~= resolved_corners(cs@, nv as nat, nt as nat, nn as nat));
    }
    Ok(v)
}

/// The views of `faces`, in order.
pub open spec fn face_views(faces: Seq<Face>) -> Seq<(usize, Seq<ObjIndex>)> {
    Seq::new(faces.len(), |i: int| faces[i]@)
}

/// The views of `lines`, in order.
pub open spec fn line_views(lines: Seq<Polyline>) -> Seq<(usize, Seq<isize>)> {
    Seq::new(lines.len(), |i: int| lines[i]@)
}

fn resolve_faces(faces: &Vec<Face>, nv: usize, nt: usize, nn: usize) -> (r: Result<
    Vec<Face>,
    (usize, GeometryType, isize),
>)
    requires
        nv <= isize::MAX,
        nt <= isize::MAX,
        nn <= isize::MAX,
    ensures
        match faces_fault(face_views(faces@), nv as nat, nt as nat, nn as nat) {
            Some(f) => r == Err::<Vec<Face>, (usize, GeometryType, isize)>(f),
            None => r matches Ok(v) && face_views(v@) == resolved_faces(
                face_views(faces@),
                nv as nat,
                nt as nat,
                nn as nat,
            ),
        },
{
    let ghost all = face_views(faces@);
    let mut v: Vec<Face> = Vec::new();
    let mut i: usize = 0;
    proof {
        assert(all.skip(0) =~= all);
    }
    while i < faces.len()
        invariant
            nv <= isize::MAX,
            nt <= isize::MAX,
            nn <= isize::MAX,
            i <= faces@.len(),
            all == face_views(faces@),
            faces_fault(all, nv as nat, nt as nat, nn as nat) == faces_fault(
                all.skip(i as int),
                nv as nat,
                nt as nat,
                nn as nat,
            ),
            v@.len() == i,
            forall|k: int|
                0 <= k < i ==> (#[trigger] v@[k])@ == (
                    all[k].0,
                    resolved_corners(all[k].1, nv as nat, nt as nat, nn as nat),
                ),
        decreases faces@.len() - i,
    {
        proof {
            assert(all.skip(i as int)[0] == faces@[i as int]@);
            assert(all.skip(i as int).drop_first() =~= all.skip(i as int + 1));
        }
        match resolve_corners(&faces[i].corners, nv, nt, nn) {
            Ok(corners) => {
                v.push(Face { row: faces[i].row, corners });
            },
            Err(f) => {
                return Err((faces[i].row, f.0, f.1));
            },
        }
        i = i + 1;
    }
    proof {
        assert(face_views(v@) =~= resolved_faces(all, nv as nat, nt as nat, nn as nat));
    }
    Ok(v)
}

fn resolve_vertices(vs: &Vec<isize>, nv: usize) -> (r: Result<Vec<isize>, isize>)
    requires
        nv <= isize::MAX,
    ensures
        match vertices_fault(vs@, nv as nat) {
            Some(f) => r == Err::<Vec<isize>, isize>(f),
            None => r matches Ok(v) && v@ == resolved_vertices(vs@, nv as nat),
        },
{
    let mut v: Vec<isize> = Vec::new();
    let mut i: usize = 0;
    proof {
        assert(vs@.skip(0) =~= vs@);
    }
    while i < vs.len()
        invariant
            nv <= isize::MAX,
            i <= vs@.len(),
            vertices_fault(vs@, nv as nat) == vertices_fault(vs@.skip(i as int), nv as nat),
            v@.len() == i,
            forall|k: int| 0 <= k < i ==> #[trigger] v@[k] == resolve(vs@[k], nv as nat) as isize,
        decreases vs@.len() - i,
    {
        proof {
            assert(vs@.skip(i as int)[0] == vs@[i as int]);
            assert(vs@.skip(i as int).drop_first() =~= vs@.skip(i as int + 1));
        }
        match resolve_index(vs[i], nv) {
            Some(at) => {
                v.push(at);
            },
            None => {
                return Err(vs[i]);
            },
        }
        i = i + 1;
    }
    proof {
        assert(v@ =~= resolved_vertices(vs@, nv as nat));
    }
    Ok(v)
}

fn resolve_lines(lines: &Vec<Polyline>, nv: usize) -> (r: Result<Vec<Polyline>, (usize, isize)>)
    requires
        nv <= isize::MAX,
    ensures
        match lines_fault(line_views(lines@), nv as nat) {
            Some(f) => r == Err::<Vec<Polyline>, (usize, isize)>(f),
            None => r matches Ok(v) && line_views(v@) == resolved_lines(
                line_views(lines@),
                nv as nat,
            ),
        },
{
    let ghost all = line_views(lines@);
    let mut v: Vec<Polyline> = Vec::new();
    let mut i: usize = 0;
    proof {
        assert(all.skip(0) =~= all);
    }
    while i < lines.len()
        invariant
            nv <= isize::MAX,
            i <= lines@.len(),
            all == line_views(lines@),
            lines_fault(all, nv as nat) == lines_fault(all.skip(i as int), nv as nat),
            v@.len() == i,
            forall|k: int|
                0 <= k < i ==> (#[trigger] v@[k])@ == (
                    all[k].0,
                    resolved_vertices(all[k].1, nv as nat),
                ),
        decreases lines@.len() - i,
    {
        proof {
            assert(all.skip(i as int)[0] == lines@[i as int]@);
            assert(all.skip(i as int).drop_first() =~= all.skip(i as int + 1));
        }
        match resolve_vertices(&lines[i].vertices, nv) {
            Ok(vertices) => {
                v.push(Polyline { row: lines[i].row, vertices });
            },
            Err(f) => {
                return Err((lines[i].row, f));
            },
        }
        i = i + 1;
    }
    proof {
        assert(line_views(v@) =~= resolved_lines(all, nv as nat));
    }
    Ok(v)
}

/// A checked mesh holds only indices that point at its elements.
pub proof fn lemma_validated_is_indexed(m: ObjModel)
    requires
        m.countable(),
    ensures
        validate_spec(m) matches Ok(r) ==> r.indexed() && (m.wf() ==> r.wf()),
{
    if let Ok(r) = validate_spec(m) {
        let nv = m.vertices.len();
        let nt = m.texture_coords.len();
        let nn = m.vertex_normals.len();
        assert forall|i: int, j: int|
            0 <= i < r.faces.len() && 0 <= j < r.faces[i].1.len() implies corner_indexed(
            #[trigger] r.faces[i].1[j],
            nv,
            nt,
            nn,
        ) by {
            lemma_faces_without_fault(m.faces, nv, nt, nn, i);
            lemma_corners_without_fault(m.faces[i].1, nv, nt, nn, j);
        }
        assert forall|i: int, j: int|
            0 <= i < r.lines.len() && 0 <= j < r.lines[i].1.len() implies 0
            <= #[trigger] r.lines[i].1[j] < nv by {
            lemma_lines_without_fault(m.lines, nv, i);
            lemma_vertices_without_fault(m.lines[i].1, nv, j);
        }
    }
}

proof fn lemma_corners_without_fault(cs: Seq<ObjIndex>, nv: nat, nt: nat, nn: nat, j: int)
    requires
        corners_fault(cs, nv, nt, nn) is None,
        0 <= j < cs.len(),
    ensures
        corner_fault(cs[j], nv, nt, nn) is None,
    decreases cs.len(),
{
    if j > 0 {
        lemma_corners_without_fault(cs.drop_first(), nv, nt, nn, j - 1);
    }
}

proof fn lemma_faces_without_fault(
    faces: Seq<(usize, Seq<ObjIndex>)>,
    nv: nat,
    nt: nat,
    nn: nat,
    i: int,
)
    requires
        faces_fault(faces, nv, nt, nn) is None,
        0 <= i < faces.len(),
    ensures
        corners_fault(faces[i].1, nv, nt, nn) is None,
    decreases faces.len(),
{
    if i > 0 {
        lemma_faces_without_fault(faces.drop_first(), nv, nt, nn, i - 1);
    }
}

proof fn lemma_vertices_without_fault(vs: Seq<isize>, nv: nat, j: int)
    requires
        vertices_fault(vs, nv) is None,
        0 <= j < vs.len(),
    ensures
        refers(vs[j], nv),
    decreases vs.len(),
{
    if j > 0 {
        lemma_vertices_without_fault(vs.drop_first(), nv, j - 1);
    }
}

proof fn lemma_lines_without_fault(lines: Seq<(usize, Seq<isize>)>, nv: nat, i: int)
    requires
        lines_fault(lines, nv) is None,
        0 <= i < lines.len(),
    ensures
        vertices_fault(lines[i].1, nv) is None,
    decreases lines.len(),
{
    if i > 0 {
        lemma_lines_without_fault(lines.drop_first(), nv, i - 1);
    }
}

impl WavefrontObj {
    /// Checks the mesh and counts every index from zero. The mesh must hold
    /// no more elements of a kind than an index can count.
    pub fn validate(self) -> (r: Result<WavefrontObj, WavefrontObjError>)
        requires
            self@.countable(),
        ensures
            match validate_spec(self@) {
                Ok(m) => r matches Ok(o) && o@ == m && m.indexed() && (self@.wf() ==> m.wf()),
                Err(e) => r matches Err(x) && x@ == e,
            },
    {
        proof {
            lemma_validated_is_indexed(self@);
            assert(self@.faces =~= face_views(self.faces@));
            assert(self@.lines =~= line_views(self.lines@));
        }
        proof {
            assert(self@.mat_assign.dom() =~= self.mat_assign@.dom());
        }
        if self.mat_assign.len() > 0 && self.library.is_none() {
            return Err(WavefrontObjError::NoMaterial(self.file));
        }
        let nv = self.vertices.len();
        let nt = self.texture_coords.len();
        let nn = self.vertex_normals.len();
        let faces = match resolve_faces(&self.faces, nv, nt, nn) {
            Ok(faces) => faces,
            Err(f) => {
                return Err(
                    WavefrontObjError::InconsistentObject(
                        self.file,
                        f.0,
                        GeometryType::Face,
                        f.1,
                        f.2,
                    ),
                );
            },
        };
        let lines = match resolve_lines(&self.lines, nv) {
            Ok(lines) => lines,
            Err(f) => {
                return Err(
                    WavefrontObjError::InconsistentObject(
                        self.file,
                        f.0,
                        GeometryType::Line,
                        GeometryType::Vertex,
                        f.1,
                    ),
                );
            },
        };
        let r = WavefrontObj {
            file: self.file,
            vertices: self.vertices,
            texture_coords: self.texture_coords,
            vertex_normals: self.vertex_normals,
            parameter_vertices: self.parameter_vertices,
            faces,
            lines,
            library: self.library,
            mat_assign: self.mat_assign,
        };
        proof {
            assert(r@.faces =~= face_views(r.faces@));
            assert(r@.lines =~= line_views(r.lines@));
            assert(r@ =~~= validate_spec(self@)->Ok_0);
        }
        Ok(r)
    }
}

} // verus!
